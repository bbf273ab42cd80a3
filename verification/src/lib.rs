//! Reduction of raw JunoCam pushframe telemetry into calibrated raster imagery.
//!
//! A raw frame arrives as a single-channel raster whose rows are stacked
//! triplets of blue/green/red framelets. The library splits that stack into
//! addressable per-channel strips, tracks which calibration steps each strip
//! has received, applies the corrections (dark/flat, defect-mask infill,
//! hot-pixel replacement), and rasterizes the calibrated framelets onto an
//! output map. Samples are carried as integers throughout, so every pixel
//! transformation has an exact, machine-checked description.

use vstd::prelude::*;

pub mod buffer;
pub mod calibration;
pub mod camera;
pub mod codec;
pub mod config;
pub mod decompand;
pub mod enums;
pub mod error;
pub mod hotpixel;
pub mod inpaint;
pub mod lens;
pub mod paths;
pub mod process;
pub mod rawimage;
pub mod reproject;
pub mod strip;
pub mod triplet;

verus! {

/// Number of sensor rows in one framelet strip of the flight camera.
pub const STRIP_HEIGHT: usize = 128;

/// Number of sensor columns in one framelet strip of the flight camera.
pub const STRIP_WIDTH: usize = 1648;

} // verus!
