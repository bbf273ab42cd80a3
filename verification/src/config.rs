//! Process configuration, built once at startup and passed in explicitly.
//!
//! The host program parses its configuration file into these values and
//! hands them to the pipeline; nothing here is read from a hidden global.
//! Fractional settings are carried as rationals or scaled integers.

use vstd::prelude::*;

use crate::buffer::Ratio;

verus! {

/// Default processing settings.
pub struct Defaults {
    pub red_weight: Ratio,
    pub green_weight: Ratio,
    pub blue_weight: Ratio,
    pub camera_lens_projection: String,
    pub fisheye_field_of_view_micro: i64,
    pub interframe_delay_correction_micros: i64,
    pub start_time_correction_micros: i64,
    pub apply_calibration: bool,
    pub apply_infill_correction: bool,
    pub apply_hot_pixel_correction: bool,
    pub hpc_window_size: usize,
    pub hpc_threshold: Ratio,
    pub apply_weights: bool,
    pub correlated_color_balancing: bool,
}

/// Calibration reference file names, per channel and kind.
pub struct CalibrationFiles {
    pub dark_red: String,
    pub dark_green: String,
    pub dark_blue: String,
    pub flat_red: String,
    pub flat_green: String,
    pub flat_blue: String,
    pub inpaint_red: String,
    pub inpaint_green: String,
    pub inpaint_blue: String,
}

/// Orientation-provider settings: kernel file names and the positions of
/// the date fields within dated kernel names.
pub struct Spice {
    pub kernels: Vec<String>,
    pub ck_rec_pattern: String,
    pub ck_pre_pattern: String,
    pub spk_rec_pattern: String,
    pub spk_pre_pattern: String,
    pub ck_nth_start_date: usize,
    pub ck_nth_end_date: usize,
    pub spk_nth_start_date: usize,
    pub spk_nth_end_date: usize,
}

/// The whole process configuration.
pub struct JunoConfig {
    pub spice: Spice,
    pub calibration: CalibrationFiles,
    pub defaults: Defaults,
}

} // verus!
