//! Per-sample smoothing of a value toward its target.
//!
//! A change of target starts a ramp of a fixed number of samples. Each sample
//! moves the value one step toward the target and never past it; the last
//! sample of the ramp lands on the target exactly. A linear ramp adds the same
//! amount with each sample, a logarithmic ramp scales by the same ratio.

use crate::range::{lemma_unit_root_exists, root, unit_root};
use crate::units::{greatest, least, lemma_mul_div_bounds, mul_div, scale, trunc_div, LIMIT, ONE};
use vstd::prelude::*;

verus! {

/// How a change of target is spread over time.
#[derive(Clone, Copy, Debug, PartialEq, Eq, Structural)]
pub enum SmoothingStyle {
    /// The new target holds from the next sample on.
    Off,
    /// Equal steps over this many milliseconds.
    Linear(u32),
    /// Equal ratios over this many milliseconds, for values above zero.
    Logarithmic(u32),
}

impl SmoothingStyle {
    /// The time over which a change is spread, in milliseconds.
    pub open spec fn duration_ms(self) -> int {
        match self {
            SmoothingStyle::Off => 0,
            SmoothingStyle::Linear(duration_ms) => duration_ms as int,
            SmoothingStyle::Logarithmic(duration_ms) => duration_ms as int,
        }
    }
}

/// Number of samples a ramp of this style takes at this sample rate in hertz:
/// the duration in samples, rounded up, and at least one.
pub open spec fn ramp_steps(style: SmoothingStyle, sample_rate: u32) -> int {
    let samples = (style.duration_ms() * sample_rate + 999) / 1000;
    if samples < 1 {
        1
    } else {
        samples
    }
}

/// Computes `ramp_steps`.
pub fn ramp_length(style: SmoothingStyle, sample_rate: u32) -> (steps: u64)
    ensures
        steps == ramp_steps(style, sample_rate),
        steps >= 1,
{
    let duration_ms: u32 = match style {
        SmoothingStyle::Off => 0,
        SmoothingStyle::Linear(duration_ms) => duration_ms,
        SmoothingStyle::Logarithmic(duration_ms) => duration_ms,
    };
    assert(duration_ms * sample_rate <= 0xffff_ffff * 0xffff_ffff) by (nonlinear_arith)
        requires
            0 <= duration_ms <= 0xffff_ffff,
            0 <= sample_rate <= 0xffff_ffff,
    ;
    let samples: u64 = ((duration_ms as u64) * (sample_rate as u64) + 999) / 1000;
    if samples < 1 {
        1
    } else {
        samples
    }
}

/// The state of a smoother as mathematics sees it.
pub struct Ramp {
    /// Value handed out by the latest sample.
    pub current: int,
    /// Value the ramp ends on.
    pub target: int,
    /// Whether the ramp scales by a ratio with each sample, or adds an amount.
    pub geometric: bool,
    /// For a ramp that adds: the amount added by each sample but the last.
    /// For a ramp that scales: the ratio, from zero to `ONE`, of the value
    /// nearer to zero to the one farther from it, of two samples in a row.
    pub step: int,
    /// Samples until the target is reached.
    pub steps_left: nat,
}

impl Ramp {
    /// The remaining steps lead from `current` toward `target` and not past it,
    /// and a ramp with nothing left rests on its target.
    pub open spec fn wf(self) -> bool {
        &&& -LIMIT <= self.current <= LIMIT
        &&& -LIMIT <= self.target <= LIMIT
        &&& self.steps_left == 0 ==> self.current == self.target
        &&& self.steps_left > 0 && !self.geometric ==> {
            ||| self.current <= self.target && 0 <= self.step && self.step * self.steps_left
                <= self.target - self.current
            ||| self.current >= self.target && self.step <= 0 && self.step * self.steps_left
                >= self.target - self.current
        }
        &&& self.steps_left > 0 && self.geometric ==> {
            &&& 0 < self.current
            &&& 0 < self.target
            &&& 0 <= self.step <= ONE
        }
    }

    /// A ramp at rest on `value`.
    pub open spec fn settled(value: int) -> Ramp {
        Ramp { current: value, target: value, geometric: false, step: 0, steps_left: 0 }
    }

    /// The ramp after a change of target: it starts from the value reached so
    /// far and takes `steps` samples. A ramp that adds takes the `steps`-th
    /// part of the way with each sample; a ramp that scales takes the
    /// `steps`-th root of the ratio of the two values.
    pub open spec fn retarget(self, target: int, steps: int, geometric: bool) -> Ramp {
        Ramp {
            current: self.current,
            target,
            geometric,
            step: if geometric {
                unit_root(
                    mul_div(
                        least(self.current, target),
                        ONE as int,
                        greatest(self.current, target),
                    ),
                    steps as nat,
                )
            } else {
                trunc_div(target - self.current, steps)
            },
            steps_left: steps as nat,
        }
    }

    /// The value one step on from the current one: not past the target.
    pub open spec fn stepped(self) -> int {
        if !self.geometric {
            self.current + self.step
        } else if self.current > self.target {
            greatest(self.target, mul_div(self.step, self.current, ONE as int))
        } else if self.current < self.target && self.step > 0 {
            least(self.target, (self.current * ONE) / self.step)
        } else {
            self.target
        }
    }

    /// The ramp after one sample.
    pub open spec fn advance(self) -> Ramp {
        if self.steps_left > 1 {
            Ramp { current: self.stepped(), steps_left: (self.steps_left - 1) as nat, ..self }
        } else {
            Ramp { current: self.target, steps_left: 0, ..self }
        }
    }

    /// The ramp after `samples` samples.
    pub open spec fn after(self, samples: nat) -> Ramp
        decreases samples,
    {
        if samples == 0 {
            self
        } else {
            self.advance().after((samples - 1) as nat)
        }
    }

    /// Whether `value` lies between the current value and the target.
    pub open spec fn spans(self, value: int) -> bool {
        ||| self.current <= value <= self.target
        ||| self.target <= value <= self.current
    }
}

/// A change of target leaves a well-formed ramp.
pub proof fn lemma_retarget_wf(ramp: Ramp, target: int, steps: int, geometric: bool)
    requires
        -LIMIT <= ramp.current <= LIMIT,
        -LIMIT <= target <= LIMIT,
        steps >= 1,
        geometric ==> 0 < ramp.current && 0 < target,
    ensures
        ramp.retarget(target, steps, geometric).wf(),
{
    if geometric {
        let low = least(ramp.current, target);
        let high = greatest(ramp.current, target);
        lemma_mul_div_bounds(low, ONE as int, high);
        lemma_unit_root_exists(mul_div(low, ONE as int, high), steps as nat);
    } else {
        let delta = target - ramp.current;
        let m = if delta >= 0 {
            delta
        } else {
            -delta
        };
        assert(0 <= (m / steps) * steps <= m && m / steps >= 0) by (nonlinear_arith)
            requires
                m >= 0,
                steps >= 1,
        ;
        assert((-(m / steps)) * steps == -((m / steps) * steps)) by (nonlinear_arith);
    }
}

/// One sample keeps a ramp well formed, and moves its value toward the target
/// without passing it.
pub proof fn lemma_advance_wf(ramp: Ramp)
    requires
        ramp.wf(),
    ensures
        ramp.advance().wf(),
        ramp.advance().target == ramp.target,
        ramp.advance().geometric == ramp.geometric,
        ramp.advance().step == ramp.step,
        ramp.spans(ramp.advance().current),
        ramp.current <= ramp.target ==> ramp.current <= ramp.advance().current,
        ramp.current >= ramp.target ==> ramp.current >= ramp.advance().current,
        ramp.steps_left > 0 ==> ramp.advance().steps_left == ramp.steps_left - 1,
        ramp.steps_left == 0 ==> ramp.advance() == ramp,
{
    if ramp.steps_left > 1 {
        let s = ramp.step;
        if ramp.geometric {
            let one = ONE as int;
            let c = ramp.current;
            lemma_mul_div_bounds(s, c, one);
            if s > 0 {
                assert((c * one) / s >= c) by (nonlinear_arith)
                    requires
                        0 < s <= one,
                        c > 0,
                ;
            }
        } else {
            let n = ramp.steps_left as int;
            assert(s * (n - 1) == s * n - s) by (nonlinear_arith);
            if 0 <= s {
                assert(s <= s * n) by (nonlinear_arith)
                    requires
                        0 <= s,
                        n >= 1,
                ;
            }
            if s <= 0 {
                assert(s >= s * n) by (nonlinear_arith)
                    requires
                        s <= 0,
                        n >= 1,
                ;
            }
        }
    }
}

/// Any number of samples keeps a ramp well formed and aimed at the same target.
pub proof fn lemma_after_wf(ramp: Ramp, samples: nat)
    requires
        ramp.wf(),
    ensures
        ramp.after(samples).wf(),
        ramp.after(samples).target == ramp.target,
        ramp.spans(ramp.after(samples).current),
        ramp.after(samples).steps_left == if samples <= ramp.steps_left {
            (ramp.steps_left - samples) as nat
        } else {
            0
        },
    decreases samples,
{
    if samples > 0 {
        lemma_advance_wf(ramp);
        lemma_after_wf(ramp.advance(), (samples - 1) as nat);
    }
}

/// Samples add up: `a` samples and then `b` more are `a + b` samples.
pub proof fn lemma_after_adds(ramp: Ramp, a: nat, b: nat)
    ensures
        ramp.after(a).after(b) == ramp.after(a + b),
    decreases a,
{
    if a > 0 {
        lemma_after_adds(ramp.advance(), (a - 1) as nat, b);
    }
}

/// Convergence: once at least as many samples were taken as the ramp had
/// left, the value is the target exactly, and nothing is left of the ramp.
pub proof fn lemma_ramp_converges(ramp: Ramp, samples: nat)
    requires
        ramp.wf(),
        samples >= ramp.steps_left,
    ensures
        ramp.after(samples).current == ramp.target,
        ramp.after(samples).steps_left == 0,
{
    lemma_after_wf(ramp, samples);
}

/// Before its last sample a ramp that adds has the start plus one step for
/// each sample taken.
pub proof fn lemma_ramp_is_linear(ramp: Ramp, samples: nat)
    requires
        !ramp.geometric,
        samples < ramp.steps_left,
    ensures
        ramp.after(samples).current == ramp.current + samples * ramp.step,
        ramp.after(samples).step == ramp.step,
        ramp.after(samples).target == ramp.target,
        !ramp.after(samples).geometric,
        ramp.after(samples).steps_left == ramp.steps_left - samples,
    decreases samples,
{
    if samples > 0 {
        lemma_ramp_is_linear(ramp.advance(), (samples - 1) as nat);
        assert(ramp.current + ramp.step + (samples - 1) * ramp.step == ramp.current + samples
            * ramp.step) by (nonlinear_arith);
    } else {
        assert(0 * ramp.step == 0);
    }
}

/// Monotonicity: each sample's value lies between the one before it and the
/// target, so a rising ramp never falls and a falling ramp never rises,
/// whether it adds or scales.
pub proof fn lemma_ramp_monotonic(ramp: Ramp, samples: nat)
    requires
        ramp.wf(),
    ensures
        ramp.current <= ramp.target ==> ramp.after(samples).current <= ramp.after(
            samples + 1,
        ).current <= ramp.target,
        ramp.current >= ramp.target ==> ramp.after(samples).current >= ramp.after(
            samples + 1,
        ).current >= ramp.target,
{
    lemma_after_wf(ramp, samples);
    lemma_after_adds(ramp, samples, 1);
    let here = ramp.after(samples);
    assert(here.after(1) == here.advance()) by {
        assert(here.advance().after(0) == here.advance());
    }
    lemma_advance_wf(here);
}

/// Idempotence: a ramp that has reached its target stays as it is, sample after
/// sample.
pub proof fn lemma_settled_stays(ramp: Ramp, samples: nat)
    requires
        ramp.wf(),
        ramp.steps_left == 0,
    ensures
        ramp.after(samples) == ramp,
        ramp.after(samples).current == ramp.target,
    decreases samples,
{
    if samples > 0 {
        lemma_advance_wf(ramp);
        lemma_settled_stays(ramp.advance(), (samples - 1) as nat);
    }
}

/// Smoothing state of one value.
#[derive(Clone, Copy, Debug)]
pub struct Smoother {
    current: i64,
    target: i64,
    geometric: bool,
    step: i64,
    steps_left: u64,
}

impl View for Smoother {
    type V = Ramp;

    closed spec fn view(&self) -> Ramp {
        Ramp {
            current: self.current as int,
            target: self.target as int,
            geometric: self.geometric,
            step: self.step as int,
            steps_left: self.steps_left as nat,
        }
    }
}

impl Smoother {
    /// Every smoother holds a well-formed ramp.
    #[verifier::type_invariant]
    pub open spec fn inv(self) -> bool {
        self@.wf()
    }

    /// A smoother at rest on `value`.
    pub fn new(value: i64) -> (s: Smoother)
        requires
            -LIMIT <= value <= LIMIT,
        ensures
            s@ == Ramp::settled(value as int),
    {
        Smoother { current: value, target: value, geometric: false, step: 0, steps_left: 0 }
    }

    /// Puts the smoother at rest on `value`, dropping any ramp under way.
    pub fn reset(&mut self, value: i64)
        requires
            -LIMIT <= value <= LIMIT,
        ensures
            final(self)@ == Ramp::settled(value as int),
    {
        *self = Smoother::new(value);
    }

    /// Starts a ramp of `steps` samples from the value reached so far to
    /// `target`, one that adds. No sample is consumed.
    pub fn set_target(&mut self, target: i64, steps: u64)
        requires
            -LIMIT <= target <= LIMIT,
            steps >= 1,
        ensures
            final(self)@ == old(self)@.retarget(target as int, steps as int, false),
    {
        proof {
            use_type_invariant(&*self);
            lemma_retarget_wf(self@, target as int, steps as int, false);
        }
        let delta: i128 = (target as i128) - (self.current as i128);
        let step: i128 = delta / (steps as i128);
        assert(-2 * LIMIT <= step <= 2 * LIMIT) by (nonlinear_arith)
            requires
                -2 * LIMIT <= delta <= 2 * LIMIT,
                steps >= 1,
                step == trunc_div(delta as int, steps as int),
        ;
        *self = Smoother {
            current: self.current,
            target,
            geometric: false,
            step: step as i64,
            steps_left: steps,
        };
    }

    /// Starts a ramp of `steps` samples from the value reached so far to
    /// `target`, one that scales. Both values are above zero. No sample is
    /// consumed.
    pub fn set_target_logarithmic(&mut self, target: i64, steps: u64)
        requires
            0 < target <= LIMIT,
            0 < old(self)@.current,
            steps >= 1,
        ensures
            final(self)@ == old(self)@.retarget(target as int, steps as int, true),
    {
        proof {
            use_type_invariant(&*self);
            lemma_retarget_wf(self@, target as int, steps as int, true);
        }
        let (low, high) = if self.current <= target {
            (self.current, target)
        } else {
            (target, self.current)
        };
        proof {
            lemma_mul_div_bounds(low as int, ONE as int, high as int);
        }
        let ratio = root(scale(low, ONE, high), steps);
        *self = Smoother {
            current: self.current,
            target,
            geometric: true,
            step: ratio,
            steps_left: steps,
        };
    }

    /// Takes one sample: moves one step along the ramp and returns the value
    /// to use for this sample. Once the target is reached it is returned as it
    /// is, with no further change.
    pub fn next(&mut self) -> (value: i64)
        ensures
            final(self)@ == old(self)@.advance(),
            value == final(self)@.current,
            old(self)@.spans(value as int),
            old(self)@.steps_left == 0 ==> final(self)@ == old(self)@ && value == old(self)@.target,
    {
        proof {
            use_type_invariant(&*self);
            lemma_advance_wf(self@);
        }
        if self.steps_left > 1 {
            let stepped = if !self.geometric {
                self.current + self.step
            } else if self.current > self.target {
                proof {
                    lemma_mul_div_bounds(self.step as int, self.current as int, ONE as int);
                }
                let scaled = scale(self.step, self.current, ONE);
                if scaled > self.target {
                    scaled
                } else {
                    self.target
                }
            } else if self.current < self.target && self.step > 0 {
                let scaled: i128 = ((self.current as i128) * (ONE as i128)) / (self.step as i128);
                if scaled < self.target as i128 {
                    scaled as i64
                } else {
                    self.target
                }
            } else {
                self.target
            };
            *self = Smoother {
                current: stepped,
                target: self.target,
                geometric: self.geometric,
                step: self.step,
                steps_left: self.steps_left - 1,
            };
        } else if self.steps_left == 1 {
            *self = Smoother {
                current: self.target,
                target: self.target,
                geometric: self.geometric,
                step: self.step,
                steps_left: 0,
            };
        }
        self.current
    }

    /// Value handed out by the latest sample.
    pub fn current(&self) -> (value: i64)
        ensures
            value == self@.current,
    {
        self.current
    }

    /// Value the ramp ends on.
    pub fn target(&self) -> (value: i64)
        ensures
            value == self@.target,
    {
        self.target
    }

    /// Samples until the target is reached.
    pub fn steps_left(&self) -> (steps: u64)
        ensures
            steps == self@.steps_left,
    {
        self.steps_left
    }

    /// Whether the target has been reached.
    pub fn is_settled(&self) -> (settled: bool)
        ensures
            settled == (self@.steps_left == 0),
            settled ==> self@.current == self@.target,
    {
        proof {
            use_type_invariant(self);
        }
        self.steps_left == 0
    }
}

} // verus!
