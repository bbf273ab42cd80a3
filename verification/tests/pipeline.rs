use junocam::buffer::{ImageBuffer, Ratio};
use junocam::calibration::{CalibrationSet, ChannelCal};
use junocam::enums::{Camera, SampleBitMode};
use junocam::error::Error;
use junocam::rawimage::RawImage;
use junocam::strip::Strip;
use junocam::triplet::Triplet;

fn buf(v: Vec<i64>, w: usize, h: usize) -> ImageBuffer {
    ImageBuffer::from_vec(v, w, h).unwrap()
}

fn const_buf(v: i64, w: usize, h: usize) -> ImageBuffer {
    buf(vec![v; w * h], w, h)
}

/// An identity calibration set: zero dark, unit-gain flat, clear mask.
fn identity_cal(w: usize, h: usize) -> CalibrationSet {
    let mk = || ChannelCal {
        dark: const_buf(0, w, h),
        flat: const_buf(65535, w, h),
        mask: const_buf(0, w, h),
    };
    CalibrationSet { red: mk(), green: mk(), blue: mk() }
}

#[test]
fn split_then_assemble_reproduces_raster() {
    let samples: Vec<i64> = (0..36).map(|i| i * 3 + 1).collect();
    let raster = buf(samples.clone(), 3, 12);
    let raw = RawImage::new_from_imagebuffer(raster, 2).unwrap();
    assert_eq!(raw.triplets.len(), 2);
    let out = raw.assemble().unwrap();
    assert_eq!(out.width, 3);
    assert_eq!(out.height, 12);
    assert_eq!(out.buffer, samples);
}

#[test]
fn triplet_count_for_full_stack_height() {
    let raster = const_buf(0, 2, 3 * 128 * 26);
    let raw = RawImage::new_from_imagebuffer(raster, 128).unwrap();
    assert_eq!(raw.get_triplet_count(), 26);
}

#[test]
fn three_row_bands_decompand_to_constant_bands() {
    // Three identical one-row bands of constant value 100.
    let raster = const_buf(100, 4, 3);
    let mut raw = RawImage::new_from_imagebuffer(raster, 1).unwrap();
    assert_eq!(raw.get_triplet_count(), 1);
    raw.appy_decomanding(SampleBitMode::SQROOT).unwrap();
    let out = raw.assemble().unwrap();
    // Square-root companding inverts 100 to 100*100*65535/65025 = 10078.
    assert_eq!(out.buffer, vec![10078; 12]);
}

#[test]
fn triplet_slices_bands_in_channel_order() {
    let samples: Vec<i64> = (0..18).collect();
    let band = buf(samples, 3, 6);
    let t = Triplet::new_from_imagebuffer(&band, 2).unwrap();
    assert_eq!(t.blue.camera, Camera::BLUE);
    assert_eq!(t.green.camera, Camera::GREEN);
    assert_eq!(t.red.camera, Camera::RED);
    assert_eq!(t.blue.buffer.buffer, (0..6).collect::<Vec<i64>>());
    assert_eq!(t.green.buffer.buffer, (6..12).collect::<Vec<i64>>());
    assert_eq!(t.red.buffer.buffer, (12..18).collect::<Vec<i64>>());
    assert_eq!(
        Triplet::new_from_imagebuffer(&band, 3).unwrap_err(),
        Error::DimensionMismatch
    );
}

#[test]
fn decompand_twice_fails_with_already_applied() {
    let mut s = Strip::new_from_imagebuffer(const_buf(100, 2, 2), Camera::BLUE).unwrap();
    s.decompand(SampleBitMode::LIN1).unwrap();
    assert_eq!(s.decompand(SampleBitMode::LIN1).unwrap_err(), Error::AlreadyApplied);
}

#[test]
fn unknown_encoding_mode_is_rejected() {
    let mut s = Strip::new_from_imagebuffer(const_buf(100, 2, 2), Camera::BLUE).unwrap();
    assert_eq!(
        s.decompand(SampleBitMode::UNKNOWN).unwrap_err(),
        Error::UnknownEncodingMode
    );
    // The failed attempt is no transition: a later decompand still works.
    s.decompand(SampleBitMode::LIN8).unwrap();
    assert_eq!(s.buffer.buffer, vec![800; 4]);
}

#[test]
fn darknoise_twice_fails_with_already_applied() {
    let cal = identity_cal(2, 1);
    let mut s = Strip::new_from_imagebuffer(const_buf(500, 2, 1), Camera::RED).unwrap();
    s.apply_darknoise(&cal.red.dark, &cal.red.flat).unwrap();
    // Zero dark and unit-gain flat leave the samples unchanged.
    assert_eq!(s.buffer.buffer, vec![500, 500]);
    assert_eq!(
        s.apply_darknoise(&cal.red.dark, &cal.red.flat).unwrap_err(),
        Error::AlreadyApplied
    );
}

#[test]
fn infill_twice_fails_with_already_applied() {
    let cal = identity_cal(2, 2);
    let mut s = Strip::new_from_imagebuffer(const_buf(7, 2, 2), Camera::GREEN).unwrap();
    s.infill(&cal.green.mask).unwrap();
    assert_eq!(s.infill(&cal.green.mask).unwrap_err(), Error::AlreadyApplied);
}

#[test]
fn hot_pixel_correction_twice_fails_with_already_applied() {
    let mut s = Strip::new_from_imagebuffer(const_buf(9, 3, 3), Camera::BLUE).unwrap();
    let t = Ratio::new(5, 2);
    s.apply_hot_pixel_correction(3, &t).unwrap();
    assert_eq!(
        s.apply_hot_pixel_correction(3, &t).unwrap_err(),
        Error::AlreadyApplied
    );
}

#[test]
fn aggregate_corrections_fan_out_and_guard() {
    let raster = const_buf(120, 2, 6);
    let mut raw = RawImage::new_from_imagebuffer(raster, 1).unwrap();
    let cal = identity_cal(2, 1);
    raw.appy_decomanding(SampleBitMode::LIN1).unwrap();
    raw.apply_darknoise(&cal).unwrap();
    raw.apply_infill_correction(&cal).unwrap();
    raw.apply_hot_pixel_correction(3, &Ratio::new(5, 2)).unwrap();
    raw.apply_weights(&Ratio::new(902, 1000), &Ratio::new(1, 1), &Ratio::new(18889, 10000))
        .unwrap();
    // A second pass of any one-shot correction fails fast.
    assert_eq!(raw.apply_darknoise(&cal).unwrap_err(), Error::AlreadyApplied);
    assert_eq!(
        raw.appy_decomanding(SampleBitMode::LIN1).unwrap_err(),
        Error::AlreadyApplied
    );
    assert_eq!(raw.apply_infill_correction(&cal).unwrap_err(), Error::AlreadyApplied);
    assert_eq!(
        raw.apply_hot_pixel_correction(3, &Ratio::new(5, 2)).unwrap_err(),
        Error::AlreadyApplied
    );
    // Weights carry no guard and may be applied again.
    raw.apply_weights(&Ratio::new(1, 1), &Ratio::new(1, 1), &Ratio::new(1, 1)).unwrap();
    // The channel weights scaled the bands: blue rows got the blue weight.
    let out = raw.assemble().unwrap();
    assert_eq!(out.get(0, 0).unwrap(), 120 * 18889 / 10000);
    assert_eq!(out.get(0, 1).unwrap(), 120);
    assert_eq!(out.get(0, 2).unwrap(), 120 * 902 / 1000);
}

#[test]
fn darknoise_applies_dark_and_flat_references() {
    // Dark of 65535 divides into gain 1; frame minus dark, scaled by the
    // flat mean and divided by the flat gain.
    let dark = const_buf(65535, 2, 1);  // dark2 = 1
    let flat = const_buf(32767, 2, 1);  // flat2 = 2 (65535 / 32767)
    let mut s = Strip::new_from_imagebuffer(buf(vec![11, 1], 2, 1), Camera::RED).unwrap();
    s.apply_darknoise(&dark, &flat).unwrap();
    // darkflat = 2 - 1 = 1 everywhere, mean 1; (v - 1) * 1 / 2 per cell.
    assert_eq!(s.buffer.buffer, vec![5, 0]);
}

#[test]
fn calibration_set_serves_primary_channels_only() {
    let cal = identity_cal(2, 2);
    assert!(cal.for_camera(Camera::RED).is_ok());
    assert!(cal.for_camera(Camera::GREEN).is_ok());
    assert!(cal.for_camera(Camera::BLUE).is_ok());
    assert_eq!(cal.for_camera(Camera::METHANE).unwrap_err(), Error::UnsupportedChannel);
    assert_eq!(cal.for_camera(Camera::NONE).unwrap_err(), Error::UnsupportedChannel);
}
