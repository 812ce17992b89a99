//! Build-time configuration of the keyboard and the analog deviation measure.

use vstd::prelude::*;

verus! {

/// Build-time configuration of the controller. None of these values change at
/// runtime; the scheduler copies them into the pipeline once at start of day.
#[derive(Clone, Copy, PartialEq, Eq, Structural, Debug)]
pub struct KeyboardConfig {
    /// Direction of a press: when true a *decreasing* raw value indicates a
    /// press ("north down"); when false an increasing one does.
    pub north_down: bool,
    /// Deviation from the baseline (in the press direction) at or above which
    /// a key is a candidate press.
    pub actuation_threshold: u16,
    /// Deviation below which a pressed key is a candidate release. Keeping it
    /// strictly under `actuation_threshold` gives a non-empty hysteresis band.
    pub release_threshold: u16,
    /// Deviations under this bound are sensor noise: they never start an
    /// actuation, whatever the thresholds say.
    pub ignore_below: u16,
    /// A key cell must have sat idle for this many ticks before its baseline
    /// is nudged toward the latest reading.
    pub recalibration_rate: u32,
    /// Number of multiplexers scanned per tick (rows of the sample grid).
    pub num_multiplexers: u8,
    /// Channels read per multiplexer (columns of the sample grid).
    pub max_channels: u8,
    /// USB vendor id, used by the device frame when building the descriptor.
    pub usb_vid: u16,
    /// USB product id, used by the device frame when building the descriptor.
    pub usb_pid: u16,
}

impl KeyboardConfig {
    /// A usable configuration: releasing may not demand a larger deviation
    /// than actuating (equal thresholds are the degenerate boundary, still
    /// with defined, non-oscillating behaviour), and the scan grid is not
    /// empty.
    pub open spec fn wf(self) -> bool {
        &&& self.release_threshold <= self.actuation_threshold
        &&& self.num_multiplexers >= 1
        &&& self.max_channels >= 1
        &&& self.recalibration_rate >= 1
    }

    /// Runtime check of the same conditions, for callers that receive the
    /// configuration from outside.
    pub fn check_wf(&self) -> (r: bool)
        ensures
            r == self.wf(),
    {
        self.release_threshold <= self.actuation_threshold
            && self.num_multiplexers >= 1
            && self.max_channels >= 1
            && self.recalibration_rate >= 1
    }
}

/// Deviation of a raw sample from a baseline, measured in the press
/// direction: positive movement toward "pressed", zero when the sample sits
/// at or beyond the baseline on the released side.
pub open spec fn spec_deviation(north_down: bool, baseline: u16, raw: u16) -> u16 {
    if north_down {
        if raw <= baseline {
            (baseline - raw) as u16
        } else {
            0
        }
    } else {
        if raw >= baseline {
            (raw - baseline) as u16
        } else {
            0
        }
    }
}

/// Press-direction deviation of `raw` from `baseline`.
pub fn deviation(north_down: bool, baseline: u16, raw: u16) -> (d: u16)
    ensures
        d == spec_deviation(north_down, baseline, raw),
{
    if north_down {
        if raw <= baseline {
            baseline - raw
        } else {
            0
        }
    } else {
        if raw >= baseline {
            raw - baseline
        } else {
            0
        }
    }
}

/// A missing or out-of-range channel read is taken as "at rest": the cell's
/// own baseline, whose deviation is zero, so it can never look like a press.
pub fn sample_or_rest(sample: Option<u16>, baseline: u16) -> (r: u16)
    ensures
        r == (match sample {
            Some(v) => v,
            None => baseline,
        }),
        sample is None ==> spec_deviation(true, baseline, r) == 0
            && spec_deviation(false, baseline, r) == 0,
{
    match sample {
        Some(v) => v,
        None => baseline,
    }
}

} // verus!
