//! One exposure's framelet triplet: blue, green and red strips.
//!
//! A triplet is sliced contiguously from one exposure's rows of the framelet
//! stack — blue first, then green, then red, each spanning the channel's
//! physical row band — and owns the cross-strip operations: fan-out of the
//! calibration corrections (blue, green, red in order, failing fast) and
//! reassembly of the three strips into a contiguous band.

use vstd::prelude::*;

use crate::buffer::{ImageBuffer, Ratio};
use crate::calibration::CalibrationSet;
use crate::enums::{Camera, SampleBitMode};
use crate::error::Error;
use crate::hotpixel::{hp_samples_ok, HP_MAX_THRESHOLD, HP_MAX_WINDOW};
use crate::strip::{
    can_darknoise, can_decompand, can_hpc, can_infill, darknoise_rel, decompand_rel, hpc_rel,
    infill_rel, strip_sizes_ok, weight_rel, Strip,
};

verus! {

/// The blue/green/red framelet set of one exposure.
#[derive(Debug)]
pub struct Triplet {
    pub buffer: ImageBuffer,
    pub blue: Strip,
    pub green: Strip,
    pub red: Strip,
}

/// The error a failing dark/flat correction reports for a strip.
pub open spec fn darknoise_err(s: &Strip) -> Error {
    if s.darknoise_applied {
        Error::AlreadyApplied
    } else {
        Error::DimensionMismatch
    }
}

/// The error a failing infill reports for a strip.
pub open spec fn infill_err(s: &Strip) -> Error {
    if s.infill_applied {
        Error::AlreadyApplied
    } else {
        Error::DimensionMismatch
    }
}

/// The error a failing decompand reports for a strip.
pub open spec fn decompand_err(s: &Strip) -> Error {
    if s.ilt_applied {
        Error::AlreadyApplied
    } else {
        Error::UnknownEncodingMode
    }
}


/// The conditional state change of a triplet-wide dark/flat fan-out: blue,
/// green and red are corrected in order until the first strip refuses.
pub open spec fn trip_darknoise_cond(pre: &Triplet, post: &Triplet, cal: &CalibrationSet) -> bool {
    let cb = can_darknoise(&pre.blue, &cal.blue.dark, &cal.blue.flat);
    let cg = can_darknoise(&pre.green, &cal.green.dark, &cal.green.flat);
    let cr = can_darknoise(&pre.red, &cal.red.dark, &cal.red.flat);
    &&& post.buffer == pre.buffer
    &&& (if cb {
        darknoise_rel(&pre.blue, &post.blue, &cal.blue.dark, &cal.blue.flat)
    } else {
        post.blue == pre.blue
    })
    &&& (if cb && cg {
        darknoise_rel(&pre.green, &post.green, &cal.green.dark, &cal.green.flat)
    } else {
        post.green == pre.green
    })
    &&& (if cb && cg && cr {
        darknoise_rel(&pre.red, &post.red, &cal.red.dark, &cal.red.flat)
    } else {
        post.red == pre.red
    })
}

/// All three strips accept the dark/flat correction.
pub open spec fn trip_can_darknoise(t: &Triplet, cal: &CalibrationSet) -> bool {
    &&& can_darknoise(&t.blue, &cal.blue.dark, &cal.blue.flat)
    &&& can_darknoise(&t.green, &cal.green.dark, &cal.green.flat)
    &&& can_darknoise(&t.red, &cal.red.dark, &cal.red.flat)
}

/// The error a failing triplet-wide dark/flat fan-out reports.
pub open spec fn trip_darknoise_err(t: &Triplet, cal: &CalibrationSet) -> Error {
    if !can_darknoise(&t.blue, &cal.blue.dark, &cal.blue.flat) {
        darknoise_err(&t.blue)
    } else if !can_darknoise(&t.green, &cal.green.dark, &cal.green.flat) {
        darknoise_err(&t.green)
    } else {
        darknoise_err(&t.red)
    }
}

/// The conditional state change of a triplet-wide infill fan-out.
pub open spec fn trip_infill_cond(pre: &Triplet, post: &Triplet, cal: &CalibrationSet) -> bool {
    let cb = can_infill(&pre.blue, &cal.blue.mask);
    let cg = can_infill(&pre.green, &cal.green.mask);
    let cr = can_infill(&pre.red, &cal.red.mask);
    &&& post.buffer == pre.buffer
    &&& (if cb {
        infill_rel(&pre.blue, &post.blue, &cal.blue.mask)
    } else {
        post.blue == pre.blue
    })
    &&& (if cb && cg {
        infill_rel(&pre.green, &post.green, &cal.green.mask)
    } else {
        post.green == pre.green
    })
    &&& (if cb && cg && cr {
        infill_rel(&pre.red, &post.red, &cal.red.mask)
    } else {
        post.red == pre.red
    })
}

/// All three strips accept the infill correction.
pub open spec fn trip_can_infill(t: &Triplet, cal: &CalibrationSet) -> bool {
    &&& can_infill(&t.blue, &cal.blue.mask)
    &&& can_infill(&t.green, &cal.green.mask)
    &&& can_infill(&t.red, &cal.red.mask)
}

/// The error a failing triplet-wide infill fan-out reports.
pub open spec fn trip_infill_err(t: &Triplet, cal: &CalibrationSet) -> Error {
    if !can_infill(&t.blue, &cal.blue.mask) {
        infill_err(&t.blue)
    } else if !can_infill(&t.green, &cal.green.mask) {
        infill_err(&t.green)
    } else {
        infill_err(&t.red)
    }
}

/// The conditional state change of a triplet-wide decompand fan-out.
pub open spec fn trip_decompand_cond(pre: &Triplet, post: &Triplet, mode: SampleBitMode) -> bool {
    let cb = can_decompand(&pre.blue, mode);
    let cg = can_decompand(&pre.green, mode);
    let cr = can_decompand(&pre.red, mode);
    &&& post.buffer == pre.buffer
    &&& (if cb {
        decompand_rel(&pre.blue, &post.blue, mode)
    } else {
        post.blue == pre.blue
    })
    &&& (if cb && cg {
        decompand_rel(&pre.green, &post.green, mode)
    } else {
        post.green == pre.green
    })
    &&& (if cb && cg && cr {
        decompand_rel(&pre.red, &post.red, mode)
    } else {
        post.red == pre.red
    })
}

/// All three strips accept decompanding under `mode`.
pub open spec fn trip_can_decompand(t: &Triplet, mode: SampleBitMode) -> bool {
    can_decompand(&t.blue, mode) && can_decompand(&t.green, mode) && can_decompand(&t.red, mode)
}

/// The error a failing triplet-wide decompand fan-out reports.
pub open spec fn trip_decompand_err(t: &Triplet, mode: SampleBitMode) -> Error {
    if !can_decompand(&t.blue, mode) {
        decompand_err(&t.blue)
    } else if !can_decompand(&t.green, mode) {
        decompand_err(&t.green)
    } else {
        decompand_err(&t.red)
    }
}

/// The conditional state change of a triplet-wide hot-pixel fan-out.
pub open spec fn trip_hpc_cond(
    pre: &Triplet,
    post: &Triplet,
    window_size: usize,
    num: i64,
    den: i64,
) -> bool {
    let cb = can_hpc(&pre.blue);
    let cg = can_hpc(&pre.green);
    let cr = can_hpc(&pre.red);
    &&& post.buffer == pre.buffer
    &&& (if cb {
        hpc_rel(&pre.blue, &post.blue, window_size, num, den)
    } else {
        post.blue == pre.blue
    })
    &&& (if cb && cg {
        hpc_rel(&pre.green, &post.green, window_size, num, den)
    } else {
        post.green == pre.green
    })
    &&& (if cb && cg && cr {
        hpc_rel(&pre.red, &post.red, window_size, num, den)
    } else {
        post.red == pre.red
    })
}

/// All three strips accept the hot-pixel correction.
pub open spec fn trip_can_hpc(t: &Triplet) -> bool {
    can_hpc(&t.blue) && can_hpc(&t.green) && can_hpc(&t.red)
}

/// The state change of a triplet-wide weight fan-out.
pub open spec fn trip_weights_rel(
    pre: &Triplet,
    post: &Triplet,
    rn: i64,
    rd: i64,
    gn: i64,
    gd: i64,
    bn: i64,
    bd: i64,
) -> bool {
    &&& post.buffer == pre.buffer
    &&& weight_rel(&pre.red, &post.red, rn, rd)
    &&& weight_rel(&pre.green, &post.green, gn, gd)
    &&& weight_rel(&pre.blue, &post.blue, bn, bd)
}

impl Triplet {
    /// The triplet is internally consistent: three well-formed strips of
    /// uniform dimensions slicing the triplet's own band into thirds, in
    /// fixed channel order.
    pub open spec fn wf(&self) -> bool {
        &&& self.buffer.wf()
        &&& self.blue.wf()
        &&& self.green.wf()
        &&& self.red.wf()
        &&& self.blue.camera == Camera::BLUE
        &&& self.green.camera == Camera::GREEN
        &&& self.red.camera == Camera::RED
        &&& self.blue.buffer.width == self.buffer.width
        &&& self.green.buffer.width == self.buffer.width
        &&& self.red.buffer.width == self.buffer.width
        &&& self.green.buffer.height == self.blue.buffer.height
        &&& self.red.buffer.height == self.blue.buffer.height
        &&& self.buffer.height == 3 * self.blue.buffer.height
    }

    /// The height of one channel's strip.
    pub open spec fn spec_strip_height(&self) -> int {
        self.blue.buffer.height as int
    }

    /// The triplet's strips hold the three bands of `src` in channel order:
    /// blue the top third, green the middle, red the bottom.
    pub open spec fn holds_bands_of(&self, src: Seq<i64>) -> bool {
        let sh = self.spec_strip_height();
        let w = self.buffer.width as int;
        &&& self.buffer@ == src
        &&& self.blue.buffer@ == src.subrange(0, sh * w)
        &&& self.green.buffer@ == src.subrange(sh * w, 2 * sh * w)
        &&& self.red.buffer@ == src.subrange(2 * sh * w, 3 * sh * w)
    }

    /// No strip has received any correction.
    pub open spec fn fresh(&self) -> bool {
        self.blue.fresh() && self.green.fresh() && self.red.fresh()
    }

    /// Slices one exposure's band into its blue, green and red strips, in
    /// that row order; fails with a size mismatch exactly when the band is
    /// not three strips tall.
    pub fn new_from_imagebuffer(buffer: &ImageBuffer, strip_height: usize) -> (r: Result<
        Triplet,
        Error,
    >)
        requires
            buffer.wf(),
        ensures
            r is Ok <==> buffer.height == 3 * strip_height,
            r matches Err(e) ==> e == Error::DimensionMismatch,
            r matches Ok(t) ==> {
                &&& t.wf()
                &&& t.buffer.width == buffer.width
                &&& t.buffer.height == buffer.height
                &&& t.spec_strip_height() == strip_height
                &&& t.holds_bands_of(buffer@)
                &&& t.fresh()
            },
    {
        if buffer.height % 3 != 0 || buffer.height / 3 != strip_height {
            return Err(Error::DimensionMismatch);
        }
        proof {
            vstd::arithmetic::div_mod::lemma_fundamental_div_mod(buffer.height as int, 3);
        }
        let blue_data = match buffer.get_slice(0, strip_height) {
            Ok(b) => b,
            Err(e) => { return Err(e) },
        };
        let green_data = match buffer.get_slice(strip_height, strip_height) {
            Ok(b) => b,
            Err(e) => { return Err(e) },
        };
        let red_data = match buffer.get_slice(2 * strip_height, strip_height) {
            Ok(b) => b,
            Err(e) => { return Err(e) },
        };
        let blue = match Strip::new_from_imagebuffer(blue_data, Camera::BLUE) {
            Ok(s) => s,
            Err(e) => { return Err(e) },
        };
        let green = match Strip::new_from_imagebuffer(green_data, Camera::GREEN) {
            Ok(s) => s,
            Err(e) => { return Err(e) },
        };
        let red = match Strip::new_from_imagebuffer(red_data, Camera::RED) {
            Ok(s) => s,
            Err(e) => { return Err(e) },
        };
        let copy = buffer.duplicate();
        proof {
            assert(2 * strip_height as int * buffer.width as int == (strip_height + strip_height)
                * buffer.width) by (nonlinear_arith);
            assert(3 * strip_height as int * buffer.width as int == (2 * strip_height
                + strip_height) * buffer.width) by (nonlinear_arith);
            assert((strip_height + strip_height) as int * buffer.width as int == strip_height
                * buffer.width + strip_height * buffer.width) by (nonlinear_arith);
            assert((2 * strip_height + strip_height) as int * buffer.width as int == 2
                * strip_height * buffer.width + strip_height * buffer.width) by (nonlinear_arith);
        }
        Ok(Triplet { buffer: copy, blue, green, red })
    }

    /// Pastes the three strips back into `into` as one contiguous band with
    /// its top row at `y`: blue first, green a strip below, red two strips
    /// below. Fails with a size mismatch exactly when the band does not
    /// fit, leaving `into` unchanged then.
    pub fn paste_into(&self, into: &mut ImageBuffer, y: usize) -> (r: Result<(), Error>)
        requires
            self.wf(),
            old(into).wf(),
        ensures
            final(into).wf(),
            final(into).width == old(into).width,
            final(into).height == old(into).height,
            r is Ok <==> self.buffer.width <= old(into).width && y + 3 * self.spec_strip_height()
                <= old(into).height,
            r is Err ==> final(into)@ == old(into)@,
            r matches Err(e) ==> e == Error::DimensionMismatch,
            r is Ok ==> forall|xx: int, yy: int|
                final(into).in_bounds(xx, yy) ==> final(into).sample_at(xx, yy) == (
                if xx < self.buffer.width && y <= yy < y + self.spec_strip_height() {
                    self.blue.buffer.sample_at(xx, yy - y)
                } else if xx < self.buffer.width && y + self.spec_strip_height() <= yy < y + 2
                    * self.spec_strip_height() {
                    self.green.buffer.sample_at(xx, yy - y - self.spec_strip_height())
                } else if xx < self.buffer.width && y + 2 * self.spec_strip_height() <= yy < y + 3
                    * self.spec_strip_height() {
                    self.red.buffer.sample_at(xx, yy - y - 2 * self.spec_strip_height())
                } else {
                    old(into).sample_at(xx, yy)
                }),
    {
        let sh = self.blue.buffer.height;
        if self.buffer.width > into.width || y > into.height || into.height - y < sh || into.height
            - y - sh < sh || into.height - y - 2 * sh < sh {
            return Err(Error::DimensionMismatch);
        }
        let ghost mid0 = *into;
        let r1 = self.blue.paste_into(into, y);
        proof {
            assert(r1 is Ok);
        }
        let ghost mid1 = *into;
        let r2 = self.green.paste_into(into, y + sh);
        proof {
            assert(r2 is Ok);
        }
        let ghost mid2 = *into;
        let r3 = self.red.paste_into(into, y + 2 * sh);
        proof {
            assert(r3 is Ok);
        }
        Ok(())
    }

    /// Applies the dark/flat correction to all three strips, blue then
    /// green then red, stopping at the first strip that refuses it.
    pub fn apply_darknoise(&mut self, cal: &CalibrationSet) -> (r: Result<(), Error>)
        requires
            old(self).wf(),
            cal.wf(),
        ensures
            trip_darknoise_cond(old(self), final(self), cal),
            r is Ok <==> trip_can_darknoise(old(self), cal),
            r matches Err(e) ==> e == trip_darknoise_err(old(self), cal),
    {
        match self.blue.apply_darknoise(&cal.blue.dark, &cal.blue.flat) {
            Ok(_) => {},
            Err(e) => { return Err(e) },
        }
        match self.green.apply_darknoise(&cal.green.dark, &cal.green.flat) {
            Ok(_) => {},
            Err(e) => { return Err(e) },
        }
        match self.red.apply_darknoise(&cal.red.dark, &cal.red.flat) {
            Ok(_) => {},
            Err(e) => { return Err(e) },
        }
        Ok(())
    }

    /// Infills defective cells of all three strips under their channels'
    /// masks, blue then green then red, stopping at the first refusal.
    pub fn infill(&mut self, cal: &CalibrationSet) -> (r: Result<(), Error>)
        requires
            old(self).wf(),
            cal.wf(),
            old(self).buffer.width < i64::MAX,
            old(self).buffer.height < i64::MAX,
        ensures
            trip_infill_cond(old(self), final(self), cal),
            r is Ok <==> trip_can_infill(old(self), cal),
            r matches Err(e) ==> e == trip_infill_err(old(self), cal),
    {
        match self.blue.infill(&cal.blue.mask) {
            Ok(_) => {},
            Err(e) => { return Err(e) },
        }
        match self.green.infill(&cal.green.mask) {
            Ok(_) => {},
            Err(e) => { return Err(e) },
        }
        match self.red.infill(&cal.red.mask) {
            Ok(_) => {},
            Err(e) => { return Err(e) },
        }
        Ok(())
    }

    /// Decompands all three strips under one encoding mode, blue then green
    /// then red, stopping at the first refusal.
    pub fn decompand(&mut self, ilttype: SampleBitMode) -> (r: Result<(), Error>)
        requires
            old(self).wf(),
        ensures
            trip_decompand_cond(old(self), final(self), ilttype),
            r is Ok <==> trip_can_decompand(old(self), ilttype),
            r matches Err(e) ==> e == trip_decompand_err(old(self), ilttype),
    {
        match self.blue.decompand(ilttype) {
            Ok(_) => {},
            Err(e) => { return Err(e) },
        }
        match self.green.decompand(ilttype) {
            Ok(_) => {},
            Err(e) => { return Err(e) },
        }
        match self.red.decompand(ilttype) {
            Ok(_) => {},
            Err(e) => { return Err(e) },
        }
        Ok(())
    }

    /// Replaces hot pixels in all three strips, blue then green then red,
    /// stopping at the first strip already corrected.
    pub fn apply_hot_pixel_correction(&mut self, window_size: usize, threshold: &Ratio) -> (r:
        Result<(), Error>)
        requires
            old(self).wf(),
            hp_samples_ok(&old(self).blue.buffer),
            hp_samples_ok(&old(self).green.buffer),
            hp_samples_ok(&old(self).red.buffer),
            strip_sizes_ok(&old(self).blue),
            strip_sizes_ok(&old(self).green),
            strip_sizes_ok(&old(self).red),
            1 <= window_size <= HP_MAX_WINDOW,
            threshold.wf(),
            threshold.num <= HP_MAX_THRESHOLD,
            threshold.den <= HP_MAX_THRESHOLD,
        ensures
            trip_hpc_cond(old(self), final(self), window_size, threshold.num, threshold.den),
            r is Ok <==> trip_can_hpc(old(self)),
            r matches Err(e) ==> e == Error::AlreadyApplied,
    {
        match self.blue.apply_hot_pixel_correction(window_size, threshold) {
            Ok(_) => {},
            Err(e) => { return Err(e) },
        }
        match self.green.apply_hot_pixel_correction(window_size, threshold) {
            Ok(_) => {},
            Err(e) => { return Err(e) },
        }
        match self.red.apply_hot_pixel_correction(window_size, threshold) {
            Ok(_) => {},
            Err(e) => { return Err(e) },
        }
        Ok(())
    }

    /// Scales the three strips by their channel weights, red then green
    /// then blue. Never fails.
    pub fn apply_weights(&mut self, red_weight: &Ratio, green_weight: &Ratio,
        blue_weight: &Ratio) -> (r: Result<(), Error>)
        requires
            old(self).wf(),
            red_weight.wf(),
            green_weight.wf(),
            blue_weight.wf(),
        ensures
            r is Ok,
            trip_weights_rel(old(self), final(self), red_weight.num, red_weight.den,
                green_weight.num, green_weight.den, blue_weight.num, blue_weight.den),
    {
        match self.red.apply_weight(red_weight) {
            Ok(_) => {},
            Err(e) => { return Err(e) },
        }
        match self.green.apply_weight(green_weight) {
            Ok(_) => {},
            Err(e) => { return Err(e) },
        }
        match self.blue.apply_weight(blue_weight) {
            Ok(_) => {},
            Err(e) => { return Err(e) },
        }
        Ok(())
    }
}

} // verus!
