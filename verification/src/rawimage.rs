//! The full framelet stack and its decomposition into triplets.
//!
//! A raw image owns the decoded raster plus one triplet per exposure, sliced
//! in acquisition order from the top of the stack: each triplet takes three
//! strip heights of rows. Aggregate calibration operations fan out over the
//! triplets in order and stop at the first per-strip failure, leaving the
//! already-corrected prefix in place. `assemble` inverts the decomposition
//! and reproduces the raster exactly when nothing was corrected in between.

use vstd::prelude::*;

use crate::buffer::{ImageBuffer, Ratio};
use crate::calibration::CalibrationSet;
use crate::codec::{decode_image_8bit, decoded8_samples, gray8_decodes, gray8_rows_of};
use crate::enums::SampleBitMode;
use crate::error::Error;
use crate::hotpixel::{hp_samples_ok, HP_MAX_THRESHOLD, HP_MAX_WINDOW};
use crate::strip::strip_sizes_ok;
use crate::triplet::{
    trip_can_darknoise, trip_can_decompand, trip_can_hpc, trip_can_infill, trip_darknoise_cond,
    trip_darknoise_err, trip_decompand_cond, trip_decompand_err, trip_hpc_cond, trip_infill_cond,
    trip_infill_err, trip_weights_rel, Triplet,
};
use crate::STRIP_HEIGHT;

verus! {

/// The full raw framelet stack, split into per-exposure triplets.
#[derive(Debug)]
pub struct RawImage {
    pub rawdata: ImageBuffer,
    pub triplets: Vec<Triplet>,
    pub strip_height: usize,
}

/// A block of `d` consecutive rows starting at multiple `t` stays within a
/// raster of `h` rows when `t` is below `h / d`.
proof fn lemma_div_block(t: int, d: int, h: int)
    requires
        0 < d,
        0 <= t < h / d,
    ensures
        0 <= t * d,
        t * d + d <= h,
{
    vstd::arithmetic::div_mod::lemma_fundamental_div_mod(h, d);
    vstd::arithmetic::div_mod::lemma_mod_bound(h, d);
    vstd::arithmetic::mul::lemma_mul_inequality(t + 1, h / d, d);
    assert((t + 1) * d == t * d + d) by (nonlinear_arith);
    assert((h / d) * d == d * (h / d)) by (nonlinear_arith);
    assert(t * d >= 0) by (nonlinear_arith)
        requires
            t >= 0,
            d > 0,
    ;
}

impl RawImage {
    /// The image is internally consistent: the raster is well formed, the
    /// triplet count matches the raster height, and every triplet is a
    /// well-formed band of the raster's width and the common strip height.
    pub open spec fn wf(&self) -> bool {
        &&& self.rawdata.wf()
        &&& 1 <= self.strip_height
        &&& 3 * self.strip_height <= usize::MAX
        &&& self.triplets@.len() == self.rawdata.height as int / (3 * self.strip_height as int)
        &&& forall|t: int|
            0 <= t < self.triplets@.len() ==> {
                &&& (#[trigger] self.triplets@[t]).wf()
                &&& self.triplets@[t].buffer.width == self.rawdata.width
                &&& self.triplets@[t].spec_strip_height() == self.strip_height
            }
    }

    /// Every triplet still holds exactly its band of the raw raster — true
    /// after decomposition, before any correction touches a strip.
    pub open spec fn holds_split(&self) -> bool {
        forall|t: int|
            0 <= t < self.triplets@.len() ==> (#[trigger] self.triplets@[t]).holds_bands_of(
                self.rawdata@.subrange(
                    t * 3 * self.strip_height * self.rawdata.width,
                    (t + 1) * 3 * self.strip_height * self.rawdata.width,
                ),
            )
    }

    /// No triplet has received any correction.
    pub open spec fn fresh(&self) -> bool {
        forall|t: int| 0 <= t < self.triplets@.len() ==> (#[trigger] self.triplets@[t]).fresh()
    }

    /// Splits a decoded raster into triplets of the given strip height, in
    /// acquisition order; rows beyond the last whole triplet stay only in
    /// the raster. Never fails.
    pub fn new_from_imagebuffer(buffer: ImageBuffer, strip_height: usize) -> (r: Result<
        RawImage,
        Error,
    >)
        requires
            buffer.wf(),
            1 <= strip_height,
            3 * strip_height <= usize::MAX,
        ensures
            r is Ok,
            r matches Ok(ri) ==> {
                &&& ri.wf()
                &&& ri.rawdata == buffer
                &&& ri.strip_height == strip_height
                &&& ri.holds_split()
                &&& ri.fresh()
            },
    {
        let band = 3 * strip_height;
        let n = buffer.height / band;
        let mut triplets: Vec<Triplet> = Vec::new();
        let mut t: usize = 0;
        while t < n
            invariant
                t <= n,
                buffer.wf(),
                1 <= strip_height,
                band == 3 * strip_height,
                n == buffer.height as int / band as int,
                triplets@.len() == t,
                forall|j: int|
                    0 <= j < t ==> {
                        &&& (#[trigger] triplets@[j]).wf()
                        &&& triplets@[j].buffer.width == buffer.width
                        &&& triplets@[j].spec_strip_height() == strip_height
                        &&& triplets@[j].fresh()
                        &&& triplets@[j].holds_bands_of(buffer@.subrange(
                            j * 3 * strip_height * buffer.width,
                            (j + 1) * 3 * strip_height * buffer.width,
                        ))
                    },
            decreases n - t,
        {
            proof {
                lemma_div_block(t as int, band as int, buffer.height as int);
            }
            let slice = match buffer.get_slice(t * band, band) {
                Ok(b) => b,
                Err(e) => { return Err(e) },
            };
            let trip = match Triplet::new_from_imagebuffer(&slice, strip_height) {
                Ok(tr) => tr,
                Err(e) => { return Err(e) },
            };
            proof {
                assert(t * band * buffer.width == t * 3 * strip_height * buffer.width)
                    by (nonlinear_arith)
                    requires
                        band == 3 * strip_height,
                ;
                assert((t * band + band) * buffer.width == (t + 1) * 3 * strip_height
                    * buffer.width) by (nonlinear_arith)
                    requires
                        band == 3 * strip_height,
                ;
            }
            triplets.push(trip);
            t = t + 1;
        }
        Ok(RawImage { rawdata: buffer, triplets, strip_height })
    }

    /// Decodes an 8-bit raw framelet stack and splits it into triplets of
    /// the flight camera's strip height; fails with a file-not-found
    /// condition when the bytes are not a decodable image.
    pub fn new_from_image(image_bytes: &Vec<u8>) -> (r: Result<RawImage, Error>)
        ensures
            r is Ok <==> gray8_decodes(image_bytes@),
            r matches Ok(ri) ==> {
                &&& ri.wf()
                &&& ri.strip_height == STRIP_HEIGHT
                &&& ri.rawdata@ == decoded8_samples(image_bytes@)
                &&& ri.rawdata.height == gray8_rows_of(image_bytes@).len()
                &&& ri.holds_split()
                &&& ri.fresh()
            },
            r matches Err(e) ==> e == Error::FileNotFound,
    {
        let buffer = match decode_image_8bit(image_bytes) {
            Ok(b) => b,
            Err(e) => { return Err(e) },
        };
        match RawImage::new_from_imagebuffer(buffer, STRIP_HEIGHT) {
            Ok(ri) => Ok(ri),
            Err(_) => Err(Error::FileNotFound),
        }
    }

    /// Decodes an 8-bit raw framelet stack, decompands it under the given
    /// encoding mode, and splits it into triplets; fails with a
    /// file-not-found condition on undecodable bytes and an
    /// unknown-encoding condition on the unknown mode.
    pub fn new_from_image_with_decompand(image_bytes: &Vec<u8>, ilttype: SampleBitMode) -> (r:
        Result<RawImage, Error>)
        ensures
            r is Ok <==> ilttype != SampleBitMode::UNKNOWN && gray8_decodes(image_bytes@),
            r matches Ok(ri) ==> {
                &&& ri.wf()
                &&& ri.strip_height == STRIP_HEIGHT
                &&& ri.rawdata@ == crate::decompand::spec_decompand(ilttype, decoded8_samples(
                    image_bytes@))
                &&& ri.holds_split()
                &&& ri.fresh()
            },
            r matches Err(e) ==> e == Error::FileNotFound || e == Error::UnknownEncodingMode,
            ilttype == SampleBitMode::UNKNOWN ==> r == Result::<RawImage, Error>::Err(
                Error::UnknownEncodingMode),
    {
        if matches!(ilttype, SampleBitMode::UNKNOWN) {
            return Err(Error::UnknownEncodingMode);
        }
        let mut buffer = match decode_image_8bit(image_bytes) {
            Ok(b) => b,
            Err(e) => { return Err(e) },
        };
        let rr = crate::decompand::decompand_buffer(&mut buffer, ilttype);
        proof {
            assert(rr is Ok);
        }
        match RawImage::new_from_imagebuffer(buffer, STRIP_HEIGHT) {
            Ok(ri) => Ok(ri),
            Err(_) => Err(Error::FileNotFound),
        }
    }

    /// The number of triplets the stack was split into, reduced onto the
    /// eight-bit exposure counter (counts past 255 wrap).
    pub fn get_triplet_count(&self) -> (r: u8)
        ensures
            r as int == self.triplets@.len() % 256,
            self.triplets@.len() < 256 ==> r == self.triplets@.len(),
    {
        (self.triplets.len() % 256) as u8
    }

    /// What `assemble` paints at each coordinate: the matching strip sample
    /// inside the covered bands, zero in any remainder rows.
    pub open spec fn assembled_sample(&self, x: int, y: int) -> i64 {
        let sh = self.strip_height as int;
        let t = y / (3 * sh);
        if t < self.triplets@.len() {
            let ry = y - t * 3 * sh;
            if ry < sh {
                self.triplets@[t].blue.buffer.sample_at(x, ry)
            } else if ry < 2 * sh {
                self.triplets@[t].green.buffer.sample_at(x, ry - sh)
            } else {
                self.triplets@[t].red.buffer.sample_at(x, ry - 2 * sh)
            }
        } else {
            0
        }
    }

    /// Pastes every triplet's three strips back into one contiguous raster
    /// of the original dimensions, in fixed channel order at row offsets
    /// zero, one and two strip heights within each triplet's band.
    pub fn assemble(&self) -> (r: Result<ImageBuffer, Error>)
        requires
            self.wf(),
        ensures
            r is Ok,
            r matches Ok(out) ==> {
                &&& out.wf()
                &&& out.width == self.rawdata.width
                &&& out.height == self.rawdata.height
                &&& forall|x: int, y: int|
                    out.in_bounds(x, y) ==> #[trigger] out.sample_at(x, y)
                        == self.assembled_sample(x, y)
            },
    {
        let mut out = match ImageBuffer::new(self.rawdata.width, self.rawdata.height) {
            Ok(b) => b,
            Err(e) => { return Err(e) },
        };
        let band = 3 * self.strip_height;
        let n = self.triplets.len();
        let ghost sh = self.strip_height as int;
        let mut t: usize = 0;
        proof {
            assert(t as int * 3 * sh == 0) by (nonlinear_arith)
                requires
                    t == 0,
            ;
            assert forall|x: int, y: int| out.in_bounds(x, y) implies out.sample_at(x, y)
                == 0i64 by {
                crate::buffer::lemma_raster_index_bound(x, y, out.width as int, out.height as int);
            }
        }
        while t < n
            invariant
                t <= n,
                self.wf(),
                band == 3 * self.strip_height,
                sh == self.strip_height as int,
                n == self.triplets@.len(),
                out.wf(),
                out.width == self.rawdata.width,
                out.height == self.rawdata.height,
                forall|x: int, y: int|
                    out.in_bounds(x, y) ==> #[trigger] out.sample_at(x, y) == (
                    if y < t * 3 * sh {
                        self.assembled_sample(x, y)
                    } else {
                        0i64
                    }),
            decreases n - t,
        {
            proof {
                lemma_div_block(t as int, band as int, self.rawdata.height as int);
                assert(t * band == t * 3 * sh) by (nonlinear_arith)
                    requires
                        band == 3 * sh,
                ;
                assert((t + 1) * 3 * sh == t * 3 * sh + 3 * sh) by (nonlinear_arith);
            }
            let ghost pre = out;
            let rr = self.triplets[t].paste_into(&mut out, t * band);
            proof {
                assert(rr is Ok);
                let y0 = t as int * 3 * sh;
                assert forall|x: int, y: int| out.in_bounds(x, y) implies #[trigger] out.sample_at(
                    x, y) == (if y < (t + 1) as int * 3 * sh {
                    self.assembled_sample(x, y)
                } else {
                    0i64
                }) by {
                    let trip = self.triplets@[t as int];
                    if y0 <= y < y0 + 3 * sh {
                        vstd::arithmetic::div_mod::lemma_fundamental_div_mod_converse(y, 3 * sh,
                            t as int, y - y0);
                        assert(y / (3 * sh) == t as int);
                        assert(x < trip.buffer.width ==> out.sample_at(x, y)
                            == self.assembled_sample(x, y));
                    } else if y < y0 {
                        assert(out.sample_at(x, y) == pre.sample_at(x, y));
                    } else {
                        assert(out.sample_at(x, y) == pre.sample_at(x, y));
                    }
                }
            }
            t = t + 1;
        }
        proof {
            assert forall|x: int, y: int| out.in_bounds(x, y) implies #[trigger] out.sample_at(x,
                y) == self.assembled_sample(x, y) by {
                if y >= n as int * 3 * sh {
                    assert(y / (3 * sh) >= n) by {
                        vstd::arithmetic::div_mod::lemma_div_is_ordered(n as int * 3 * sh, y, 3
                            * sh);
                        vstd::arithmetic::div_mod::lemma_div_multiples_vanish(n as int, 3 * sh);
                        assert(3 * sh * n as int == n as int * 3 * sh) by (nonlinear_arith);
                    }
                }
            }
        }
        Ok(out)
    }
}

/// Every triplet before index `k` accepts the dark/flat correction.
pub open spec fn prefix_can_darknoise(ts: Seq<Triplet>, cal: &CalibrationSet, k: int) -> bool {
    forall|j: int| 0 <= j < k ==> trip_can_darknoise(&(#[trigger] ts[j]), cal)
}

/// Every triplet before index `k` accepts the infill correction.
pub open spec fn prefix_can_infill(ts: Seq<Triplet>, cal: &CalibrationSet, k: int) -> bool {
    forall|j: int| 0 <= j < k ==> trip_can_infill(&(#[trigger] ts[j]), cal)
}

/// Every triplet before index `k` accepts decompanding.
pub open spec fn prefix_can_decompand(ts: Seq<Triplet>, mode: SampleBitMode, k: int) -> bool {
    forall|j: int| 0 <= j < k ==> trip_can_decompand(&(#[trigger] ts[j]), mode)
}

/// Every triplet before index `k` accepts the hot-pixel correction.
pub open spec fn prefix_can_hpc(ts: Seq<Triplet>, k: int) -> bool {
    forall|j: int| 0 <= j < k ==> trip_can_hpc(&(#[trigger] ts[j]))
}

impl RawImage {
    /// Applies the dark/flat correction to every triplet in acquisition
    /// order, stopping at the first per-strip refusal; the already-corrected
    /// prefix stays corrected (no rollback).
    pub fn apply_darknoise(&mut self, cal: &CalibrationSet) -> (r: Result<(), Error>)
        requires
            old(self).wf(),
            cal.wf(),
        ensures
            final(self).rawdata == old(self).rawdata,
            final(self).strip_height == old(self).strip_height,
            final(self).triplets@.len() == old(self).triplets@.len(),
            r is Ok <==> prefix_can_darknoise(old(self).triplets@, cal,
                old(self).triplets@.len() as int),
            forall|t: int|
                0 <= t < old(self).triplets@.len() ==> (if prefix_can_darknoise(
                    old(self).triplets@,
                    cal,
                    t,
                ) {
                    trip_darknoise_cond(&old(self).triplets@[t],
                        &(#[trigger] final(self).triplets@[t]), cal)
                } else {
                    final(self).triplets@[t] == old(self).triplets@[t]
                }),
            r matches Err(e) ==> exists|k: int|
                0 <= k < old(self).triplets@.len() && prefix_can_darknoise(old(self).triplets@,
                    cal, k) && !trip_can_darknoise(&(#[trigger] old(self).triplets@[k]), cal) && e
                    == trip_darknoise_err(&old(self).triplets@[k], cal),
    {
        let n = self.triplets.len();
        let mut i: usize = 0;
        while i < n
            invariant
                i <= n,
                cal.wf(),
                n == self.triplets@.len(),
                self.triplets@.len() == old(self).triplets@.len(),
                self.rawdata == old(self).rawdata,
                self.strip_height == old(self).strip_height,
                forall|j: int| i <= j < n ==> self.triplets@[j] == old(self).triplets@[j],
                forall|j: int| 0 <= j < n ==> (#[trigger] old(self).triplets@[j]).wf(),
                prefix_can_darknoise(old(self).triplets@, cal, i as int),
                forall|t: int|
                    0 <= t < i ==> trip_darknoise_cond(&old(self).triplets@[t], &(
                    #[trigger] self.triplets@[t]), cal),
            decreases n - i,
        {
            let trip = &mut self.triplets[i];
            match trip.apply_darknoise(cal) {
                Ok(_) => {},
                Err(e) => {
                    proof {
                        let k = i as int;
                        assert(prefix_can_darknoise(old(self).triplets@, cal, k)
                            && !trip_can_darknoise(&old(self).triplets@[k], cal) && e
                            == trip_darknoise_err(&old(self).triplets@[k], cal));
                    }
                    return Err(e);
                },
            }
            i = i + 1;
        }
        Ok(())
    }

    /// Applies the hot-pixel correction to every triplet in acquisition
    /// order, stopping at the first strip already corrected.
    pub fn apply_hot_pixel_correction(&mut self, hpc_window_size: usize, hpc_threshold: &Ratio) -> (r:
        Result<(), Error>)
        requires
            old(self).wf(),
            1 <= hpc_window_size <= HP_MAX_WINDOW,
            hpc_threshold.wf(),
            hpc_threshold.num <= HP_MAX_THRESHOLD,
            hpc_threshold.den <= HP_MAX_THRESHOLD,
            forall|t: int|
                0 <= t < old(self).triplets@.len() ==> {
                    let trip = #[trigger] old(self).triplets@[t];
                    &&& hp_samples_ok(&trip.blue.buffer)
                    &&& hp_samples_ok(&trip.green.buffer)
                    &&& hp_samples_ok(&trip.red.buffer)
                    &&& strip_sizes_ok(&trip.blue)
                    &&& strip_sizes_ok(&trip.green)
                    &&& strip_sizes_ok(&trip.red)
                },
        ensures
            final(self).rawdata == old(self).rawdata,
            final(self).strip_height == old(self).strip_height,
            final(self).triplets@.len() == old(self).triplets@.len(),
            r is Ok <==> prefix_can_hpc(old(self).triplets@, old(self).triplets@.len() as int),
            forall|t: int|
                0 <= t < old(self).triplets@.len() ==> (if prefix_can_hpc(old(self).triplets@,
                    t) {
                    trip_hpc_cond(&old(self).triplets@[t], &(#[trigger] final(self).triplets@[t]),
                        hpc_window_size, hpc_threshold.num, hpc_threshold.den)
                } else {
                    final(self).triplets@[t] == old(self).triplets@[t]
                }),
            r matches Err(e) ==> e == Error::AlreadyApplied,
    {
        let n = self.triplets.len();
        let mut i: usize = 0;
        while i < n
            invariant
                i <= n,
                n == self.triplets@.len(),
                self.triplets@.len() == old(self).triplets@.len(),
                self.rawdata == old(self).rawdata,
                self.strip_height == old(self).strip_height,
                1 <= hpc_window_size <= HP_MAX_WINDOW,
                hpc_threshold.wf(),
                hpc_threshold.num <= HP_MAX_THRESHOLD,
                hpc_threshold.den <= HP_MAX_THRESHOLD,
                forall|j: int| i <= j < n ==> self.triplets@[j] == old(self).triplets@[j],
                forall|j: int| 0 <= j < n ==> (#[trigger] old(self).triplets@[j]).wf(),
                forall|t: int|
                    0 <= t < old(self).triplets@.len() ==> {
                        let trip = #[trigger] old(self).triplets@[t];
                        &&& hp_samples_ok(&trip.blue.buffer)
                        &&& hp_samples_ok(&trip.green.buffer)
                        &&& hp_samples_ok(&trip.red.buffer)
                        &&& strip_sizes_ok(&trip.blue)
                        &&& strip_sizes_ok(&trip.green)
                        &&& strip_sizes_ok(&trip.red)
                    },
                prefix_can_hpc(old(self).triplets@, i as int),
                forall|t: int|
                    0 <= t < i ==> trip_hpc_cond(&old(self).triplets@[t], &(
                    #[trigger] self.triplets@[t]), hpc_window_size, hpc_threshold.num,
                        hpc_threshold.den),
            decreases n - i,
        {
            let trip = &mut self.triplets[i];
            match trip.apply_hot_pixel_correction(hpc_window_size, hpc_threshold) {
                Ok(_) => {},
                Err(e) => { return Err(e) },
            }
            i = i + 1;
        }
        Ok(())
    }

    /// Infills defective cells of every triplet in acquisition order,
    /// stopping at the first per-strip refusal.
    pub fn apply_infill_correction(&mut self, cal: &CalibrationSet) -> (r: Result<(), Error>)
        requires
            old(self).wf(),
            cal.wf(),
            old(self).rawdata.width < i64::MAX,
            old(self).rawdata.height < i64::MAX,
        ensures
            final(self).rawdata == old(self).rawdata,
            final(self).strip_height == old(self).strip_height,
            final(self).triplets@.len() == old(self).triplets@.len(),
            r is Ok <==> prefix_can_infill(old(self).triplets@, cal,
                old(self).triplets@.len() as int),
            forall|t: int|
                0 <= t < old(self).triplets@.len() ==> (if prefix_can_infill(
                    old(self).triplets@,
                    cal,
                    t,
                ) {
                    trip_infill_cond(&old(self).triplets@[t],
                        &(#[trigger] final(self).triplets@[t]), cal)
                } else {
                    final(self).triplets@[t] == old(self).triplets@[t]
                }),
            r matches Err(e) ==> exists|k: int|
                0 <= k < old(self).triplets@.len() && prefix_can_infill(old(self).triplets@, cal,
                    k) && !trip_can_infill(&(#[trigger] old(self).triplets@[k]), cal) && e
                    == trip_infill_err(&old(self).triplets@[k], cal),
    {
        let n = self.triplets.len();
        let mut i: usize = 0;
        while i < n
            invariant
                i <= n,
                cal.wf(),
                n == self.triplets@.len(),
                self.triplets@.len() == old(self).triplets@.len(),
                self.rawdata == old(self).rawdata,
                self.strip_height == old(self).strip_height,
                old(self).rawdata.width < i64::MAX,
                old(self).rawdata.height < i64::MAX,
                old(self).wf(),
                forall|j: int| i <= j < n ==> self.triplets@[j] == old(self).triplets@[j],
                prefix_can_infill(old(self).triplets@, cal, i as int),
                forall|t: int|
                    0 <= t < i ==> trip_infill_cond(&old(self).triplets@[t], &(
                    #[trigger] self.triplets@[t]), cal),
            decreases n - i,
        {
            proof {
                assert(old(self).triplets@[i as int].wf());
                assert(old(self).triplets@[i as int].buffer.width == old(self).rawdata.width);
                lemma_div_block(0, 3 * old(self).strip_height as int,
                    old(self).rawdata.height as int);
            }
            let trip = &mut self.triplets[i];
            match trip.infill(cal) {
                Ok(_) => {},
                Err(e) => {
                    proof {
                        let k = i as int;
                        assert(prefix_can_infill(old(self).triplets@, cal, k) && !trip_can_infill(
                            &old(self).triplets@[k], cal) && e == trip_infill_err(
                            &old(self).triplets@[k], cal));
                    }
                    return Err(e);
                },
            }
            i = i + 1;
        }
        Ok(())
    }

    /// Decompands every triplet in acquisition order under one encoding
    /// mode, stopping at the first per-strip refusal.
    pub fn appy_decomanding(&mut self, ilttype: SampleBitMode) -> (r: Result<(), Error>)
        requires
            old(self).wf(),
        ensures
            final(self).rawdata == old(self).rawdata,
            final(self).strip_height == old(self).strip_height,
            final(self).triplets@.len() == old(self).triplets@.len(),
            r is Ok <==> prefix_can_decompand(old(self).triplets@, ilttype,
                old(self).triplets@.len() as int),
            forall|t: int|
                0 <= t < old(self).triplets@.len() ==> (if prefix_can_decompand(
                    old(self).triplets@,
                    ilttype,
                    t,
                ) {
                    trip_decompand_cond(&old(self).triplets@[t],
                        &(#[trigger] final(self).triplets@[t]), ilttype)
                } else {
                    final(self).triplets@[t] == old(self).triplets@[t]
                }),
            r matches Err(e) ==> exists|k: int|
                0 <= k < old(self).triplets@.len() && prefix_can_decompand(old(self).triplets@,
                    ilttype, k) && !trip_can_decompand(&(#[trigger] old(self).triplets@[k]),
                    ilttype) && e == trip_decompand_err(&old(self).triplets@[k], ilttype),
    {
        let n = self.triplets.len();
        let mut i: usize = 0;
        while i < n
            invariant
                i <= n,
                n == self.triplets@.len(),
                self.triplets@.len() == old(self).triplets@.len(),
                self.rawdata == old(self).rawdata,
                self.strip_height == old(self).strip_height,
                old(self).wf(),
                forall|j: int| i <= j < n ==> self.triplets@[j] == old(self).triplets@[j],
                prefix_can_decompand(old(self).triplets@, ilttype, i as int),
                forall|t: int|
                    0 <= t < i ==> trip_decompand_cond(&old(self).triplets@[t], &(
                    #[trigger] self.triplets@[t]), ilttype),
            decreases n - i,
        {
            proof {
                assert(old(self).triplets@[i as int].wf());
            }
            let trip = &mut self.triplets[i];
            match trip.decompand(ilttype) {
                Ok(_) => {},
                Err(e) => {
                    proof {
                        let k = i as int;
                        assert(prefix_can_decompand(old(self).triplets@, ilttype, k)
                            && !trip_can_decompand(&old(self).triplets@[k], ilttype) && e
                            == trip_decompand_err(&old(self).triplets@[k], ilttype));
                    }
                    return Err(e);
                },
            }
            i = i + 1;
        }
        Ok(())
    }

    /// Scales every triplet's channels by the given weights. Never fails.
    pub fn apply_weights(&mut self, red_weight: &Ratio, green_weight: &Ratio,
        blue_weight: &Ratio) -> (r: Result<(), Error>)
        requires
            old(self).wf(),
            red_weight.wf(),
            green_weight.wf(),
            blue_weight.wf(),
        ensures
            r is Ok,
            final(self).rawdata == old(self).rawdata,
            final(self).strip_height == old(self).strip_height,
            final(self).triplets@.len() == old(self).triplets@.len(),
            forall|t: int|
                0 <= t < old(self).triplets@.len() ==> trip_weights_rel(&old(self).triplets@[t],
                    &(#[trigger] final(self).triplets@[t]), red_weight.num, red_weight.den,
                    green_weight.num, green_weight.den, blue_weight.num, blue_weight.den),
    {
        let n = self.triplets.len();
        let mut i: usize = 0;
        while i < n
            invariant
                i <= n,
                n == self.triplets@.len(),
                self.triplets@.len() == old(self).triplets@.len(),
                self.rawdata == old(self).rawdata,
                self.strip_height == old(self).strip_height,
                old(self).wf(),
                red_weight.wf(),
                green_weight.wf(),
                blue_weight.wf(),
                forall|j: int| i <= j < n ==> self.triplets@[j] == old(self).triplets@[j],
                forall|t: int|
                    0 <= t < i ==> trip_weights_rel(&old(self).triplets@[t], &(
                    #[trigger] self.triplets@[t]), red_weight.num, red_weight.den,
                        green_weight.num, green_weight.den, blue_weight.num, blue_weight.den),
            decreases n - i,
        {
            proof {
                assert(old(self).triplets@[i as int].wf());
            }
            let trip = &mut self.triplets[i];
            match trip.apply_weights(red_weight, green_weight, blue_weight) {
                Ok(_) => {},
                Err(e) => { return Err(e) },
            }
            i = i + 1;
        }
        Ok(())
    }
}

/// Law: decomposing a raster into triplets and reassembling them with no
/// correction applied in between reproduces the raster sample for sample.
/// This needs the raster height to be an exact multiple of three strip
/// heights; any remainder rows are dropped by the decomposition and come
/// back as zeros.
pub proof fn lemma_assemble_reproduces_raw(r: &RawImage, out: &ImageBuffer)
    requires
        r.wf(),
        r.holds_split(),
        out.wf(),
        out.width == r.rawdata.width,
        out.height == r.rawdata.height,
        forall|x: int, y: int|
            out.in_bounds(x, y) ==> #[trigger] out.sample_at(x, y) == r.assembled_sample(x, y),
        r.rawdata.height as int == r.triplets@.len() * 3 * r.strip_height,
    ensures
        out@ == r.rawdata@,
{
    let w = r.rawdata.width as int;
    let h = r.rawdata.height as int;
    let sh = r.strip_height as int;
    let n = r.triplets@.len() as int;
    assert forall|x: int, y: int| 0 <= x < w && 0 <= y < h implies out.sample_at(x, y)
        == r.rawdata.sample_at(x, y) by {
        let t = y / (3 * sh);
        assert(0 <= t) by {
            vstd::arithmetic::div_mod::lemma_div_pos_is_pos(y, 3 * sh);
        }
        assert(t < n) by {
            if t >= n {
                vstd::arithmetic::mul::lemma_mul_inequality(n, t, 3 * sh);
                vstd::arithmetic::div_mod::lemma_fundamental_div_mod(y, 3 * sh);
                vstd::arithmetic::div_mod::lemma_mod_bound(y, 3 * sh);
                assert(y == 3 * sh * t + y % (3 * sh));
                assert(3 * sh * t == t * (3 * sh)) by (nonlinear_arith);
                assert(n * (3 * sh) == n * 3 * sh) by (nonlinear_arith);
            }
        }
        let ry = y - t * 3 * sh;
        assert(0 <= ry < 3 * sh) by {
            vstd::arithmetic::div_mod::lemma_fundamental_div_mod(y, 3 * sh);
            vstd::arithmetic::div_mod::lemma_mod_bound(y, 3 * sh);
            assert(3 * sh * t == t * 3 * sh) by (nonlinear_arith);
        }
        let trip = r.triplets@[t];
        let base = t * 3 * sh * w;
        assert(trip.holds_bands_of(r.rawdata@.subrange(base, (t + 1) * 3 * sh * w)));
        // Locate the raster index within the triplet's band.
        crate::buffer::lemma_raster_index_bound(x, y, w, h);
        assert(y * w + x == base + ry * w + x) by (nonlinear_arith)
            requires
                y == t * 3 * sh + ry,
                base == t * 3 * sh * w,
        ;
        assert((t + 1) * 3 * sh * w - t * 3 * sh * w == 3 * sh * w) by (nonlinear_arith);
        // The band index falls in the strip the assembled sample names.
        let band = r.rawdata@.subrange(base, (t + 1) * 3 * sh * w);
        assert(0 <= base && base <= (t + 1) * 3 * sh * w && (t + 1) * 3 * sh * w
            <= r.rawdata@.len()) by (nonlinear_arith)
            requires
                0 <= t < n,
                0 < sh,
                0 <= w,
                0 <= x < w,
                base == t * 3 * sh * w,
                r.rawdata@.len() == w * h,
                h == n * 3 * sh,
        ;
        assert(band.len() == 3 * sh * w);
        assert(w * sh == sh * w && 2 * sh * w - sh * w == sh * w && 3 * sh * w - 2 * sh * w == sh
            * w) by (nonlinear_arith);
        if ry < sh {
            assert(trip.blue.buffer@ == band.subrange(0, sh * w));
            crate::buffer::lemma_raster_index_bound(x, ry, w, sh);
            assert(trip.blue.buffer.sample_at(x, ry) == band[ry * w + x]);
            assert(band[ry * w + x] == r.rawdata@[base + ry * w + x]);
        } else if ry < 2 * sh {
            assert(trip.green.buffer@ == band.subrange(sh * w, 2 * sh * w));
            crate::buffer::lemma_raster_index_bound(x, ry - sh, w, sh);
            assert((ry - sh) * w + x + sh * w == ry * w + x) by (nonlinear_arith);
            assert(trip.green.buffer.sample_at(x, ry - sh) == band[ry * w + x]);
            assert(band[ry * w + x] == r.rawdata@[base + ry * w + x]);
        } else {
            assert(trip.red.buffer@ == band.subrange(2 * sh * w, 3 * sh * w));
            crate::buffer::lemma_raster_index_bound(x, ry - 2 * sh, w, sh);
            assert((ry - 2 * sh) * w + x + 2 * sh * w == ry * w + x) by (nonlinear_arith);
            assert(trip.red.buffer.sample_at(x, ry - 2 * sh) == band[ry * w + x]);
            assert(band[ry * w + x] == r.rawdata@[base + ry * w + x]);
        }
    }
    assert forall|k: int| 0 <= k < out@.len() implies out@[k] == r.rawdata@[k] by {
        let x = k % w;
        let y = k / w;
        assert(w > 0) by (nonlinear_arith)
            requires
                out@.len() == w * out.height,
                k < out@.len(),
                0 <= k,
                0 <= out.height,
        ;
        vstd::arithmetic::div_mod::lemma_fundamental_div_mod(k, w);
        vstd::arithmetic::div_mod::lemma_mod_bound(k, w);
        assert(y < h) by (nonlinear_arith)
            requires
                k == w * y + x,
                0 <= x < w,
                k < w * h,
                0 < w,
        ;
        assert(w * y == y * w) by (nonlinear_arith);
        assert(out.sample_at(x, y) == out@[k]);
        assert(r.rawdata.sample_at(x, y) == r.rawdata@[k]);
    }
    assert(out@ =~= r.rawdata@);
}

} // verus!
