//! Error taxonomy of the calibration core.
//!
//! Coordinate and dimension errors are local contract violations by the
//! caller; idempotency violations report an attempt to re-run a one-shot
//! correction; the remaining variants mark unusable inputs. Nothing in this
//! library retries an operation.

use vstd::prelude::*;

verus! {

/// Failure conditions raised by the calibration and reprojection core.
#[derive(Clone, Copy, Debug, PartialEq, Eq, Structural)]
pub enum Error {
    /// An input file was absent or could not be decoded into a raster.
    FileNotFound,
    /// Two rasters that must agree in size did not.
    DimensionMismatch,
    /// A pixel access lay outside the raster bounds.
    InvalidCoordinates,
    /// A one-shot correction was invoked a second time on the same strip.
    AlreadyApplied,
    /// A channel with no calibration reference data was requested.
    UnsupportedChannel,
    /// The defect mask for a channel could not be obtained.
    MaskLoadFailure,
    /// The sample encoding mode was not one of the known modes.
    UnknownEncodingMode,
}

} // verus!
