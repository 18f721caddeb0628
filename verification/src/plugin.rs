//! The effect as the host sees it: one threshold parameter and the processing
//! of audio blocks with it.

use crate::parameter::{ConfigurationError, Parameter, ParameterModel};
use crate::processor::{frames, process_block, rectangular, shaped};
use crate::range::Range;
use crate::smoother::SmoothingStyle;
use crate::units::ONE;
use vstd::prelude::*;

verus! {

/// Sample rate assumed until the host names one, in hertz.
pub const DEFAULT_SAMPLE_RATE: u32 = 44_100;

/// Lowest threshold, a thousandth of full scale.
pub const THRESHOLD_MIN: i64 = 1_000_000;

/// Exponent of the threshold's skewed range.
pub const THRESHOLD_FACTOR: u32 = 3;

/// Time over which a change of the threshold is spread, in milliseconds.
pub const SMOOTHING_MS: u32 = 50;

/// The threshold's range: from `THRESHOLD_MIN` to full scale, skewed.
pub open spec fn threshold_range() -> Range {
    Range::Skewed { min: THRESHOLD_MIN, max: ONE, factor: THRESHOLD_FACTOR }
}

/// The threshold as it is set up: at rest on full scale.
pub open spec fn default_threshold(sample_rate: u32) -> ParameterModel {
    ParameterModel::settled(
        "threshold"@,
        "Threshold"@,
        threshold_range(),
        ONE as int,
        SmoothingStyle::Linear(SMOOTHING_MS),
        sample_rate,
    )
}

/// How the processing of a block ended.
#[derive(Clone, Copy, Debug, PartialEq, Eq, Structural)]
pub enum ProcessStatus {
    /// The block was shaped.
    Normal,
    /// The block was left as it was: its channels differ in length, or the
    /// threshold's range reaches zero.
    Rejected,
}

/// The effect's parameters.
pub struct BleachInjectorParams {
    /// Level at which the input is clipped.
    pub threshold: Parameter,
}

impl BleachInjectorParams {
    /// The threshold can never be zero or less.
    pub open spec fn wf(&self) -> bool {
        self.threshold@.range.lower() > 0
    }

    /// The parameters as they are set up, for a host that runs at
    /// `sample_rate` hertz.
    pub fn new(sample_rate: u32) -> (params: BleachInjectorParams)
        ensures
            params.threshold@ == default_threshold(sample_rate),
            params.wf(),
    {
        let range = Range::Skewed { min: THRESHOLD_MIN, max: ONE, factor: THRESHOLD_FACTOR };
        BleachInjectorParams {
            threshold: Parameter::settled(
                "threshold",
                "Threshold",
                range,
                ONE,
                SmoothingStyle::Linear(SMOOTHING_MS),
                sample_rate,
            ),
        }
    }

    /// Parameters around a threshold of the caller's making. It is refused if
    /// its range reaches zero.
    pub fn with_threshold(threshold: Parameter) -> (r: Result<BleachInjectorParams, ConfigurationError>)
        ensures
            r is Ok <==> threshold@.range.lower() > 0,
            r matches Ok(params) ==> params.threshold == threshold,
            r matches Err(error) ==> error == ConfigurationError::ThresholdReachesZero,
    {
        if threshold.range().min() > 0 {
            Ok(BleachInjectorParams { threshold })
        } else {
            Err(ConfigurationError::ThresholdReachesZero)
        }
    }

    /// Takes the host's sample rate before processing begins. Always agrees.
    pub fn initialize(&mut self, sample_rate: u32) -> (ready: bool)
        ensures
            ready,
            final(self).threshold@ == (ParameterModel { sample_rate, ..old(self).threshold@ }),
    {
        self.threshold.set_sample_rate(sample_rate);
        true
    }

    /// Restarts playback: the threshold jumps to its target.
    pub fn reset(&mut self)
        ensures
            final(self).threshold@ == old(self).threshold@.arrived(),
    {
        self.threshold.reset();
    }

    /// Shapes a block of audio in place, as `process_block` does, after
    /// checking what `process_block` requires. A block that fails the check is
    /// left as it was, and so is the threshold.
    pub fn process(&mut self, buffer: &mut Vec<Vec<i64>>) -> (status: ProcessStatus)
        ensures
            status == if rectangular(old(buffer)@) && old(self).wf() {
                ProcessStatus::Normal
            } else {
                ProcessStatus::Rejected
            },
            status == ProcessStatus::Rejected ==> *final(buffer) == *old(buffer) && *final(self)
                == *old(self),
            status == ProcessStatus::Normal ==> processed(
                old(buffer)@,
                old(self).threshold@,
                final(buffer)@,
                final(self).threshold@,
            ),
    {
        if !is_rectangular(buffer) || self.threshold.range().min() <= 0 {
            return ProcessStatus::Rejected;
        }
        process_block(buffer, &mut self.threshold);
        ProcessStatus::Normal
    }
}

/// What `process_block` makes of a block and a threshold.
pub open spec fn processed(
    before: Seq<Vec<i64>>,
    threshold_before: ParameterModel,
    after: Seq<Vec<i64>>,
    threshold_after: ParameterModel,
) -> bool {
    &&& after.len() == before.len()
    &&& rectangular(after)
    &&& frames(after) == frames(before)
    &&& forall|c: int, i: int|
        0 <= c < before.len() && 0 <= i < frames(before) ==> #[trigger] after[c][i] == shaped(
            before[c][i] as int,
            threshold_before.ramp.after((i + 1) as nat).current,
        )
    &&& threshold_after == threshold_before.after(frames(before))
}

/// Checks `rectangular`.
pub fn is_rectangular(buffer: &Vec<Vec<i64>>) -> (ok: bool)
    ensures
        ok == rectangular(buffer@),
{
    if buffer.len() == 0 {
        return true;
    }
    let length = buffer[0].len();
    let mut c: usize = 0;
    while c < buffer.len()
        invariant
            c <= buffer.len(),
            buffer.len() > 0,
            length == frames(buffer@),
            forall|d: int| 0 <= d < c ==> (#[trigger] buffer@[d]).len() == length,
        decreases buffer.len() - c,
    {
        if buffer[c].len() != length {
            return false;
        }
        c = c + 1;
    }
    true
}

impl Default for BleachInjectorParams {
    fn default() -> (params: BleachInjectorParams)
        ensures
            params.threshold@ == default_threshold(DEFAULT_SAMPLE_RATE),
            params.wf(),
    {
        BleachInjectorParams::new(DEFAULT_SAMPLE_RATE)
    }
}

} // verus!
