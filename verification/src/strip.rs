//! One spectral channel's framelet raster and its calibration state.
//!
//! A strip records which one-shot corrections it has already received:
//! decompanding, dark/flat correction, defect infill and hot-pixel
//! correction may each be applied at most once, and a second attempt fails
//! with an already-applied condition rather than silently double-correcting.

use vstd::prelude::*;

use crate::buffer::{
    spec_divide, spec_divide_into, spec_mean, spec_scale, spec_subtract, ImageBuffer, Ratio,
};
use crate::decompand::{decompand_buffer, spec_decompand};
use crate::enums::{Camera, SampleBitMode};
use crate::error::Error;
use crate::hotpixel::{
    hot_pixel_detection, hp_samples_ok, spec_hp_value, HP_MAX_THRESHOLD, HP_MAX_WINDOW,
};
use crate::inpaint::{apply_inpaint_to_buffer_with_mask, inpaint_post};

verus! {

/// One channel's raster plus its calibration-state flags.
#[derive(Debug)]
pub struct Strip {
    pub buffer: ImageBuffer,
    pub camera: Camera,
    pub ilt_applied: bool,
    pub darknoise_applied: bool,
    pub infill_applied: bool,
    pub hpc_applied: bool,
}

/// The dark/flat correction of a raster: dark and flat are first divided
/// into the 16-bit ceiling, the dark is subtracted from both the flat and
/// the raster, and the dark-subtracted raster is scaled by the mean of the
/// dark-subtracted flat and divided by the flat, cell by cell.
pub open spec fn spec_darknoise(s: Seq<i64>, dark: Seq<i64>, flat: Seq<i64>) -> Seq<i64> {
    let dark2 = spec_divide_into(65535, dark);
    let flat2 = spec_divide_into(65535, flat);
    let darkflat = spec_subtract(flat2, dark2);
    let mean_flat = spec_mean(darkflat);
    let frame_minus_dark = spec_subtract(s, dark2);
    spec_divide(spec_scale(frame_minus_dark, mean_flat, 1), flat2)
}

/// The dark/flat correction applies to a strip: not yet corrected, and the
/// reference rasters share the strip's dimensions.
pub open spec fn can_darknoise(pre: &Strip, dark: &ImageBuffer, flat: &ImageBuffer) -> bool {
    &&& !pre.darknoise_applied
    &&& dark.width == pre.buffer.width && dark.height == pre.buffer.height
    &&& flat.width == pre.buffer.width && flat.height == pre.buffer.height
}

/// The state change a successful dark/flat correction makes.
pub open spec fn darknoise_rel(pre: &Strip, post: &Strip, dark: &ImageBuffer,
    flat: &ImageBuffer) -> bool {
    &&& post.camera == pre.camera
    &&& post.ilt_applied == pre.ilt_applied
    &&& post.infill_applied == pre.infill_applied
    &&& post.hpc_applied == pre.hpc_applied
    &&& post.darknoise_applied
    &&& post.buffer.wf()
    &&& post.buffer.width == pre.buffer.width
    &&& post.buffer.height == pre.buffer.height
    &&& post.buffer@ == spec_darknoise(pre.buffer@, dark@, flat@)
}

/// The decompanding applies: not yet decompanded, known encoding mode.
pub open spec fn can_decompand(pre: &Strip, mode: SampleBitMode) -> bool {
    !pre.ilt_applied && mode != SampleBitMode::UNKNOWN
}

/// The state change a successful decompanding makes.
pub open spec fn decompand_rel(pre: &Strip, post: &Strip, mode: SampleBitMode) -> bool {
    &&& post.camera == pre.camera
    &&& post.darknoise_applied == pre.darknoise_applied
    &&& post.infill_applied == pre.infill_applied
    &&& post.hpc_applied == pre.hpc_applied
    &&& post.ilt_applied
    &&& post.buffer.wf()
    &&& post.buffer.width == pre.buffer.width
    &&& post.buffer.height == pre.buffer.height
    &&& post.buffer@ == spec_decompand(mode, pre.buffer@)
}

/// The defect infill applies: not yet infilled, mask of equal dimensions.
pub open spec fn can_infill(pre: &Strip, mask: &ImageBuffer) -> bool {
    &&& !pre.infill_applied
    &&& mask.width == pre.buffer.width
    &&& mask.height == pre.buffer.height
}

/// The state change a successful defect infill makes.
pub open spec fn infill_rel(pre: &Strip, post: &Strip, mask: &ImageBuffer) -> bool {
    &&& post.camera == pre.camera
    &&& post.darknoise_applied == pre.darknoise_applied
    &&& post.ilt_applied == pre.ilt_applied
    &&& post.hpc_applied == pre.hpc_applied
    &&& post.infill_applied
    &&& inpaint_post(&pre.buffer, mask, &post.buffer)
}

/// The hot-pixel correction applies: not yet applied.
pub open spec fn can_hpc(pre: &Strip) -> bool {
    !pre.hpc_applied
}

/// The state change a successful hot-pixel correction makes.
pub open spec fn hpc_rel(pre: &Strip, post: &Strip, window_size: usize, num: i64,
    den: i64) -> bool {
    &&& post.camera == pre.camera
    &&& post.darknoise_applied == pre.darknoise_applied
    &&& post.ilt_applied == pre.ilt_applied
    &&& post.infill_applied == pre.infill_applied
    &&& post.hpc_applied
    &&& post.buffer.wf()
    &&& post.buffer.width == pre.buffer.width
    &&& post.buffer.height == pre.buffer.height
    &&& forall|x: int, y: int|
        post.buffer.in_bounds(x, y) ==> post.buffer.sample_at(x, y) == spec_hp_value(&pre.buffer,
            x, y, (window_size / 2) as int, num, den)
}

/// The state change a channel-weight scaling makes; weights carry no
/// idempotency flag and may be applied repeatedly.
pub open spec fn weight_rel(pre: &Strip, post: &Strip, num: i64, den: i64) -> bool {
    &&& post.camera == pre.camera
    &&& post.darknoise_applied == pre.darknoise_applied
    &&& post.ilt_applied == pre.ilt_applied
    &&& post.infill_applied == pre.infill_applied
    &&& post.hpc_applied == pre.hpc_applied
    &&& post.buffer.wf()
    &&& post.buffer.width == pre.buffer.width
    &&& post.buffer.height == pre.buffer.height
    &&& post.buffer@ == spec_scale(pre.buffer@, num, den)
}

/// The machine-size bounds under which strip rasters are processed.
pub open spec fn strip_sizes_ok(s: &Strip) -> bool {
    s.buffer.width < 0x4000_0000_0000_0000 && s.buffer.height < 0x4000_0000_0000_0000
}

impl Strip {
    /// The strip's raster is well formed.
    pub open spec fn wf(&self) -> bool {
        self.buffer.wf()
    }

    /// No correction has been applied yet.
    pub open spec fn fresh(&self) -> bool {
        !self.ilt_applied && !self.darknoise_applied && !self.infill_applied && !self.hpc_applied
    }

    /// Wraps a raster as an uncorrected strip of the given channel.
    pub fn new_from_imagebuffer(buffer: ImageBuffer, camera: Camera) -> (r: Result<Strip, Error>)
        requires
            buffer.wf(),
        ensures
            r is Ok,
            r matches Ok(s) ==> {
                &&& s.wf()
                &&& s.buffer == buffer
                &&& s.camera == camera
                &&& s.fresh()
            },
    {
        Ok(
            Strip {
                buffer,
                camera,
                ilt_applied: false,
                darknoise_applied: false,
                infill_applied: false,
                hpc_applied: false,
            },
        )
    }

    /// Applies the dark/flat correction once; a second attempt fails with
    /// an already-applied condition and mismatched reference dimensions
    /// fail with a size mismatch, leaving the strip unchanged either way.
    pub fn apply_darknoise(&mut self, dark: &ImageBuffer, flat: &ImageBuffer) -> (r: Result<
        (),
        Error,
    >)
        requires
            old(self).wf(),
            dark.wf(),
            flat.wf(),
        ensures
            final(self).wf(),
            r is Ok <==> can_darknoise(old(self), dark, flat),
            r is Ok ==> darknoise_rel(old(self), final(self), dark, flat),
            r is Err ==> *final(self) == *old(self),
            r matches Err(e) ==> e == (if old(self).darknoise_applied {
                Error::AlreadyApplied
            } else {
                Error::DimensionMismatch
            }),
    {
        if self.darknoise_applied {
            return Err(Error::AlreadyApplied);
        }
        let dark2 = match dark.divide_into(65535) {
            Ok(b) => b,
            Err(e) => { return Err(e) },
        };
        let flat2 = match flat.divide_into(65535) {
            Ok(b) => b,
            Err(e) => { return Err(e) },
        };
        let darkflat = match flat2.subtract(&dark2) {
            Ok(b) => b,
            Err(e) => { return Err(e) },
        };
        let mean_flat = darkflat.mean();
        let frame_minus_dark = match self.buffer.subtract(&dark2) {
            Ok(b) => b,
            Err(e) => { return Err(e) },
        };
        let scaled = match frame_minus_dark.scale(&Ratio::new(mean_flat, 1)) {
            Ok(b) => b,
            Err(e) => { return Err(e) },
        };
        let corrected = match scaled.divide(&flat2) {
            Ok(b) => b,
            Err(e) => { return Err(e) },
        };
        self.buffer = corrected;
        self.darknoise_applied = true;
        Ok(())
    }

    /// Decompands the strip once under the given encoding mode; a second
    /// attempt fails with an already-applied condition and an unknown mode
    /// fails with an unknown-encoding condition, leaving the strip
    /// unchanged either way.
    pub fn decompand(&mut self, ilttype: SampleBitMode) -> (r: Result<(), Error>)
        requires
            old(self).wf(),
        ensures
            final(self).wf(),
            r is Ok <==> can_decompand(old(self), ilttype),
            r is Ok ==> decompand_rel(old(self), final(self), ilttype),
            r is Err ==> *final(self) == *old(self),
            r matches Err(e) ==> e == (if old(self).ilt_applied {
                Error::AlreadyApplied
            } else {
                Error::UnknownEncodingMode
            }),
    {
        if self.ilt_applied {
            return Err(Error::AlreadyApplied);
        }
        if matches!(ilttype, SampleBitMode::UNKNOWN) {
            return Err(Error::UnknownEncodingMode);
        }
        let rr = decompand_buffer(&mut self.buffer, ilttype);
        proof {
            assert(rr is Ok);
        }
        self.ilt_applied = true;
        Ok(())
    }

    /// Infills defective cells under the channel's defect mask once; a
    /// second attempt fails with an already-applied condition and a mask of
    /// different dimensions fails with a size mismatch, leaving the strip
    /// unchanged either way.
    pub fn infill(&mut self, mask: &ImageBuffer) -> (r: Result<(), Error>)
        requires
            old(self).wf(),
            mask.wf(),
            old(self).buffer.width < i64::MAX,
            old(self).buffer.height < i64::MAX,
        ensures
            final(self).wf(),
            r is Ok <==> can_infill(old(self), mask),
            r is Ok ==> infill_rel(old(self), final(self), mask),
            r is Err ==> *final(self) == *old(self),
            r matches Err(e) ==> e == (if old(self).infill_applied {
                Error::AlreadyApplied
            } else {
                Error::DimensionMismatch
            }),
    {
        if self.infill_applied {
            return Err(Error::AlreadyApplied);
        }
        let filled = match apply_inpaint_to_buffer_with_mask(&self.buffer, mask) {
            Ok(b) => b,
            Err(e) => { return Err(e) },
        };
        self.buffer = filled;
        self.infill_applied = true;
        Ok(())
    }

    /// Replaces hot pixels once, comparing each sample against the square
    /// window spanning `window_size / 2` cells on each side of it with the
    /// rational threshold in standard deviations; a second attempt fails
    /// with an already-applied condition, leaving the strip unchanged.
    pub fn apply_hot_pixel_correction(&mut self, window_size: usize, threshold: &Ratio) -> (r:
        Result<(), Error>)
        requires
            old(self).wf(),
            hp_samples_ok(&old(self).buffer),
            strip_sizes_ok(old(self)),
            1 <= window_size <= HP_MAX_WINDOW,
            threshold.wf(),
            threshold.num <= HP_MAX_THRESHOLD,
            threshold.den <= HP_MAX_THRESHOLD,
        ensures
            final(self).wf(),
            r is Ok <==> can_hpc(old(self)),
            r is Ok ==> hpc_rel(old(self), final(self), window_size, threshold.num,
                threshold.den),
            r is Ok ==> hp_samples_ok(&final(self).buffer),
            r is Err ==> *final(self) == *old(self),
            r matches Err(e) ==> e == Error::AlreadyApplied,
    {
        if self.hpc_applied {
            return Err(Error::AlreadyApplied);
        }
        let corrected = match hot_pixel_detection(&self.buffer, window_size, threshold) {
            Ok(b) => b,
            Err(e) => { return Err(e) },
        };
        self.buffer = corrected;
        self.hpc_applied = true;
        Ok(())
    }

    /// Scales the strip by a channel weight; weights carry no idempotency
    /// flag. Never fails.
    pub fn apply_weight(&mut self, weight: &Ratio) -> (r: Result<(), Error>)
        requires
            old(self).wf(),
            weight.wf(),
        ensures
            final(self).wf(),
            r is Ok,
            weight_rel(old(self), final(self), weight.num, weight.den),
    {
        let scaled = match self.buffer.scale(weight) {
            Ok(b) => b,
            Err(e) => { return Err(e) },
        };
        self.buffer = scaled;
        Ok(())
    }

    /// Pastes the strip's raster into `into` with its top row at `y`.
    pub fn paste_into(&self, into: &mut ImageBuffer, y: usize) -> (r: Result<(), Error>)
        requires
            self.wf(),
            old(into).wf(),
        ensures
            final(into).wf(),
            final(into).width == old(into).width,
            final(into).height == old(into).height,
            r is Ok <==> self.buffer.width <= old(into).width && y + self.buffer.height <= old(
                into,
            ).height,
            r is Err ==> final(into)@ == old(into)@,
            r matches Err(e) ==> e == Error::DimensionMismatch,
            r is Ok ==> forall|xx: int, yy: int|
                final(into).in_bounds(xx, yy) ==> final(into).sample_at(xx, yy) == (
                if xx < self.buffer.width && y <= yy < y + self.buffer.height {
                    self.buffer.sample_at(xx, yy - y)
                } else {
                    old(into).sample_at(xx, yy)
                }),
    {
        into.paste_mut(&self.buffer, 0, y)
    }
}

/// Law: each one-shot correction is idempotency-guarded. Once a strip has
/// received a correction, the same correction no longer applies to it, so a
/// second invocation must fail with the already-applied condition.
pub proof fn lemma_one_shot_corrections(
    pre: Strip,
    post: Strip,
    dark: ImageBuffer,
    flat: ImageBuffer,
    mask: ImageBuffer,
    mode: SampleBitMode,
    window_size: usize,
    num: i64,
    den: i64,
)
    ensures
        darknoise_rel(&pre, &post, &dark, &flat) ==> !can_darknoise(&post, &dark, &flat),
        infill_rel(&pre, &post, &mask) ==> !can_infill(&post, &mask),
        hpc_rel(&pre, &post, window_size, num, den) ==> !can_hpc(&post),
        decompand_rel(&pre, &post, mode) ==> !can_decompand(&post, mode),
{
}

} // verus!
