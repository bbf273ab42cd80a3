//! Options of one end-to-end processing run.
//!
//! The host program collects these from its command line and configuration,
//! performs the file handling and the orientation lookups itself, and drives
//! the library's calibration and painting steps with them.

use vstd::prelude::*;

use crate::buffer::Ratio;
use crate::lens::SupportedLens;

verus! {

/// Largest epoch magnitude the exposure clock accepts, in microseconds.
pub const EPOCH_LIMIT_MICROS: i64 = 0x40_0000_0000_0000;

/// Largest interframe period magnitude accepted, in microseconds.
pub const PERIOD_LIMIT_MICROS: i64 = 0x100_0000_0000;

/// The epoch of exposure `t`: the image's corrected start time plus `t`
/// interframe periods, each the commanded delay plus the configured delay
/// correction. Acquisition order fixes which attitude each triplet uses,
/// so this is the time the orientation provider is asked about.
pub fn exposure_epoch_micros(
    start_micros: i64,
    t: u32,
    interframe_delay_micros: i64,
    delay_correction_micros: i64,
) -> (r: i64)
    requires
        -EPOCH_LIMIT_MICROS <= start_micros <= EPOCH_LIMIT_MICROS,
        -PERIOD_LIMIT_MICROS <= interframe_delay_micros <= PERIOD_LIMIT_MICROS,
        -PERIOD_LIMIT_MICROS <= delay_correction_micros <= PERIOD_LIMIT_MICROS,
        t <= 0x10000,
    ensures
        r as int == start_micros + t * (interframe_delay_micros + delay_correction_micros),
{
    proof {
        crate::buffer::lemma_mul_abs_bound(t as int,
            (interframe_delay_micros + delay_correction_micros) as int, 0x10000int,
            2 * PERIOD_LIMIT_MICROS as int);
    }
    let period: i128 = (interframe_delay_micros as i128) + (delay_correction_micros as i128);
    let epoch: i128 = (start_micros as i128) + (t as i128) * period;
    epoch as i64
}

/// Everything one processing run needs besides the input data itself.
pub struct ProcessOptions {
    pub input: String,
    pub metadata: String,
    pub output: Option<String>,
    pub red_weight: Ratio,
    pub green_weight: Ratio,
    pub blue_weight: Ratio,
    pub predicted: bool,
    pub width: usize,
    pub height: usize,
    pub fov_micro: i64,
    pub pitch_micro: i64,
    pub yaw_micro: i64,
    pub roll_micro: i64,
    pub lens: SupportedLens,
}

} // verus!
