//! A host-automatable control: a range, a smoothing policy, and the value that
//! is on its way to the latest target.

use crate::decimal::{format_two_places, two_places};
use crate::range::Range;
use crate::smoother::{
    lemma_advance_wf, lemma_after_wf, lemma_retarget_wf, ramp_length, ramp_steps, Ramp, Smoother,
    SmoothingStyle,
};
use crate::units::ONE;
use vstd::prelude::*;

verus! {

/// Why a parameter cannot be set up as asked.
#[derive(Clone, Copy, Debug, PartialEq, Eq, Structural)]
pub enum ConfigurationError {
    /// The range's bounds are out of order or out of reach, or its exponent is.
    InvalidRange,
    /// The default value lies outside the range.
    DefaultOutOfRange,
    /// The range of a threshold reaches zero or below.
    ThresholdReachesZero,
    /// The range of a parameter that is smoothed by ratios reaches zero or
    /// below.
    LogarithmicReachesZero,
}

/// What is wrong with a parameter of this range, default and style, if
/// anything is. The range is looked at first, then the default, then the
/// style.
pub open spec fn configuration_error(
    range: Range,
    default_value: int,
    style: SmoothingStyle,
) -> Option<ConfigurationError> {
    if !range.valid() {
        Some(ConfigurationError::InvalidRange)
    } else if !range.contains(default_value) {
        Some(ConfigurationError::DefaultOutOfRange)
    } else if style is Logarithmic && range.lower() <= 0 {
        Some(ConfigurationError::LogarithmicReachesZero)
    } else {
        None
    }
}

/// What a parameter is, as mathematics sees it.
pub struct ParameterModel {
    /// Identifier under which the host knows the parameter.
    pub id: Seq<char>,
    /// Label shown to the user.
    pub display_name: Seq<char>,
    /// Mapping between normalized and physical values.
    pub range: Range,
    /// How a change of target is spread over time.
    pub style: SmoothingStyle,
    /// Samples per second.
    pub sample_rate: u32,
    /// Current value, target, and what is left of the way between them.
    pub ramp: Ramp,
}

impl ParameterModel {
    /// The range is valid, the ramp is well formed, and the current value and
    /// the target lie within the range.
    pub open spec fn wf(self) -> bool {
        &&& self.range.valid()
        &&& self.ramp.wf()
        &&& self.range.contains(self.ramp.current)
        &&& self.range.contains(self.ramp.target)
        &&& self.style is Logarithmic ==> self.range.lower() > 0
    }

    /// A parameter at rest on `value`.
    pub open spec fn settled(
        id: Seq<char>,
        display_name: Seq<char>,
        range: Range,
        value: int,
        style: SmoothingStyle,
        sample_rate: u32,
    ) -> ParameterModel {
        ParameterModel { id, display_name, range, style, sample_rate, ramp: Ramp::settled(value) }
    }

    /// The parameter after a request for the physical value `value`: the
    /// value is brought into the range and a ramp toward it starts from the
    /// current value.
    pub open spec fn with_target(self, value: int) -> ParameterModel {
        ParameterModel {
            ramp: self.ramp.retarget(
                self.range.clamped(value),
                ramp_steps(self.style, self.sample_rate),
                self.style is Logarithmic,
            ),
            ..self
        }
    }

    /// The parameter after a request for the normalized value `n`.
    pub open spec fn with_normalized(self, n: int) -> ParameterModel {
        self.with_target(self.range.unnormalized(n))
    }

    /// The parameter after the host has reported the physical value `value`:
    /// a value that is the target already changes nothing, any other is
    /// requested.
    pub open spec fn following(self, value: int) -> ParameterModel {
        if self.range.clamped(value) == self.ramp.target {
            self
        } else {
            self.with_target(value)
        }
    }

    /// The parameter at rest on its target.
    pub open spec fn arrived(self) -> ParameterModel {
        ParameterModel { ramp: Ramp::settled(self.ramp.target), ..self }
    }

    /// The parameter after `samples` samples.
    pub open spec fn after(self, samples: nat) -> ParameterModel {
        ParameterModel { ramp: self.ramp.after(samples), ..self }
    }
}

/// Convergence: after a request for `value`, the samples of one ramp, or any
/// number beyond, bring the parameter to the requested value, brought into the
/// range, exactly; and every sample on the way lies within the range.
pub proof fn lemma_request_converges(parameter: ParameterModel, value: int, samples: nat)
    requires
        parameter.wf(),
    ensures
        parameter.with_target(value).wf(),
        parameter.with_target(value).after(samples).wf(),
        samples >= ramp_steps(parameter.style, parameter.sample_rate) ==> parameter.with_target(
            value,
        ).after(samples).ramp.current == parameter.range.clamped(value),
        samples >= ramp_steps(parameter.style, parameter.sample_rate) ==> parameter.with_target(
            value,
        ).after(samples).ramp.steps_left == 0,
{
    let steps = ramp_steps(parameter.style, parameter.sample_rate);
    assert(steps >= 1);
    lemma_retarget_wf(
        parameter.ramp,
        parameter.range.clamped(value),
        steps,
        parameter.style is Logarithmic,
    );
    lemma_after_wf(parameter.with_target(value).ramp, samples);
}

/// A single continuously valued control.
pub struct Parameter {
    id: String,
    display_name: String,
    range: Range,
    style: SmoothingStyle,
    sample_rate: u32,
    smoother: Smoother,
}

impl View for Parameter {
    type V = ParameterModel;

    closed spec fn view(&self) -> ParameterModel {
        ParameterModel {
            id: self.id@,
            display_name: self.display_name@,
            range: self.range,
            style: self.style,
            sample_rate: self.sample_rate,
            ramp: self.smoother@,
        }
    }
}

impl Parameter {
    /// Every parameter is well formed.
    #[verifier::type_invariant]
    pub open spec fn inv(self) -> bool {
        self@.wf()
    }

    /// A parameter at rest on `default_value`, for a valid range that holds the
    /// default.
    pub fn settled(
        id: &str,
        display_name: &str,
        range: Range,
        default_value: i64,
        style: SmoothingStyle,
        sample_rate: u32,
    ) -> (parameter: Parameter)
        requires
            range.valid(),
            range.contains(default_value as int),
            style is Logarithmic ==> range.lower() > 0,
        ensures
            parameter@ == ParameterModel::settled(
                id@,
                display_name@,
                range,
                default_value as int,
                style,
                sample_rate,
            ),
    {
        Parameter {
            id: id.to_owned(),
            display_name: display_name.to_owned(),
            range,
            style,
            sample_rate,
            smoother: Smoother::new(default_value),
        }
    }

    /// A parameter at rest on `default_value`. It is refused if the range is
    /// not valid or does not hold the default.
    pub fn new(
        id: &str,
        display_name: &str,
        range: Range,
        default_value: i64,
        style: SmoothingStyle,
        sample_rate: u32,
    ) -> (r: Result<Parameter, ConfigurationError>)
        ensures
            r is Ok <==> configuration_error(range, default_value as int, style) is None,
            r matches Ok(parameter) ==> parameter@ == ParameterModel::settled(
                id@,
                display_name@,
                range,
                default_value as int,
                style,
                sample_rate,
            ),
            r matches Err(error) ==> configuration_error(range, default_value as int, style)
                == Some(error),
    {
        if !range.is_valid() {
            return Err(ConfigurationError::InvalidRange);
        }
        if default_value < range.min() || default_value > range.max() {
            return Err(ConfigurationError::DefaultOutOfRange);
        }
        if range.min() <= 0 {
            match style {
                SmoothingStyle::Logarithmic(_) => {
                    return Err(ConfigurationError::LogarithmicReachesZero);
                },
                _ => {},
            }
        }
        Ok(Parameter::settled(id, display_name, range, default_value, style, sample_rate))
    }

    /// Requests the physical value `value`. It is brought into the range and
    /// becomes the target; the way to it starts from the current value. No
    /// sample is consumed.
    pub fn set_target(&mut self, value: i64)
        ensures
            final(self)@ == old(self)@.with_target(value as int),
    {
        proof {
            use_type_invariant(&*self);
        }
        let target = self.range.clamp(value);
        let steps = ramp_length(self.style, self.sample_rate);
        let mut smoother = self.smoother;
        match self.style {
            SmoothingStyle::Logarithmic(_) => smoother.set_target_logarithmic(target, steps),
            _ => smoother.set_target(target, steps),
        }
        proof {
            use_type_invariant(&smoother);
        }
        self.smoother = smoother;
    }

    /// Requests the normalized value `n`, from zero to `ONE`.
    pub fn set_normalized(&mut self, n: i64)
        ensures
            final(self)@ == old(self)@.with_normalized(n as int),
    {
        proof {
            use_type_invariant(&*self);
        }
        let value = self.range.unnormalize(n);
        self.set_target(value);
    }

    /// Takes up the physical value `value` that the host reports for the
    /// parameter, as it does at the start of each block. A ramp under way to
    /// that value goes on; any other value is requested. Returns whether a
    /// request was made.
    pub fn follow(&mut self, value: i64) -> (requested: bool)
        ensures
            final(self)@ == old(self)@.following(value as int),
            requested == (old(self)@.range.clamped(value as int) != old(self)@.ramp.target),
    {
        proof {
            use_type_invariant(&*self);
        }
        if self.range.clamp(value) == self.smoother.target() {
            false
        } else {
            self.set_target(value);
            true
        }
    }

    /// Takes one sample and returns the value to use for it.
    pub fn next_smoothed_value(&mut self) -> (value: i64)
        ensures
            final(self)@ == old(self)@.after(1),
            value == final(self)@.ramp.current,
            old(self)@.range.contains(value as int),
            old(self)@.ramp.steps_left == 0 ==> final(self)@ == old(self)@ && value == old(
                self,
            )@.ramp.target,
    {
        proof {
            use_type_invariant(&*self);
            lemma_advance_wf(self@.ramp);
            assert(self@.ramp.advance().after(0) == self@.ramp.advance());
        }
        let mut smoother = self.smoother;
        let value = smoother.next();
        proof {
            use_type_invariant(&smoother);
        }
        self.smoother = smoother;
        value
    }

    /// Sets the sample rate that later changes of target are timed by.
    pub fn set_sample_rate(&mut self, sample_rate: u32)
        ensures
            final(self)@ == (ParameterModel { sample_rate, ..old(self)@ }),
    {
        proof {
            use_type_invariant(&*self);
        }
        self.sample_rate = sample_rate;
    }

    /// Jumps to the target, dropping what is left of the way to it.
    pub fn reset(&mut self)
        ensures
            final(self)@ == old(self)@.arrived(),
    {
        proof {
            use_type_invariant(&*self);
        }
        self.smoother = Smoother::new(self.smoother.target());
    }

    /// Physical value handed out by the latest sample.
    pub fn current_value(&self) -> (value: i64)
        ensures
            value == self@.ramp.current,
            self@.range.contains(value as int),
    {
        proof {
            use_type_invariant(self);
        }
        self.smoother.current()
    }

    /// Physical value requested last.
    pub fn target_value(&self) -> (value: i64)
        ensures
            value == self@.ramp.target,
            self@.range.contains(value as int),
    {
        proof {
            use_type_invariant(self);
        }
        self.smoother.target()
    }

    /// Normalized value of the target.
    pub fn normalized_target(&self) -> (n: i64)
        ensures
            n == self@.range.normalized(self@.ramp.target),
            0 <= n <= ONE,
    {
        proof {
            use_type_invariant(self);
        }
        self.range.normalize(self.smoother.target())
    }

    /// The text that stands for the physical value `value` on a display: the
    /// value with two decimal places.
    pub fn value_to_string(&self, value: i64) -> (text: String)
        ensures
            text@ == two_places(value as int),
    {
        format_two_places(value)
    }

    /// The parameter's range.
    pub fn range(&self) -> (range: Range)
        ensures
            range == self@.range,
            range.valid(),
    {
        proof {
            use_type_invariant(self);
        }
        self.range
    }

    /// The parameter's smoothing policy.
    pub fn smoothing_style(&self) -> (style: SmoothingStyle)
        ensures
            style == self@.style,
    {
        self.style
    }

    /// Samples per second.
    pub fn sample_rate(&self) -> (rate: u32)
        ensures
            rate == self@.sample_rate,
    {
        self.sample_rate
    }

    /// Samples until the target is reached.
    pub fn steps_left(&self) -> (steps: u64)
        ensures
            steps == self@.ramp.steps_left,
    {
        self.smoother.steps_left()
    }

    /// Identifier under which the host knows the parameter.
    pub fn id(&self) -> (id: &str)
        ensures
            id@ == self@.id,
    {
        self.id.as_str()
    }

    /// Label shown to the user.
    pub fn display_name(&self) -> (name: &str)
        ensures
            name@ == self@.display_name,
    {
        self.display_name.as_str()
    }
}

} // verus!
