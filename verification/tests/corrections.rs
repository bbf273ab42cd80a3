use junocam::buffer::{ImageBuffer, Ratio};
use junocam::enums::Camera;
use junocam::hotpixel::hot_pixel_detection;
use junocam::inpaint::{
    apply_inpaint_to_buffer_with_mask, find_starting_point, inpaint_supported_for_camera,
};
use junocam::error::Error;

fn buf(v: Vec<i64>, w: usize, h: usize) -> ImageBuffer {
    ImageBuffer::from_vec(v, w, h).unwrap()
}

#[test]
fn lone_masked_pixel_gets_window_mean() {
    // A single defective center surrounded by valid samples.
    let img = buf(vec![10, 20, 30, 40, 999, 60, 70, 80, 90], 3, 3);
    let mut mask_v = vec![0i64; 9];
    mask_v[4] = 1;
    let mask = buf(mask_v, 3, 3);
    let out = apply_inpaint_to_buffer_with_mask(&img, &mask).unwrap();
    // Mean of the eight valid neighbors, truncated toward zero.
    let expected = (10 + 20 + 30 + 40 + 60 + 70 + 80 + 90) / 8;
    assert_eq!(out.get(1, 1).unwrap(), expected);
    // Valid cells come through untouched.
    assert_eq!(out.get(0, 0).unwrap(), 10);
    assert_eq!(out.get(2, 2).unwrap(), 90);
}

#[test]
fn fully_masked_buffer_terminates() {
    let img = buf(vec![5; 16], 4, 4);
    let mask = buf(vec![1; 16], 4, 4);
    let out = apply_inpaint_to_buffer_with_mask(&img, &mask).unwrap();
    assert_eq!(out.width, 4);
    assert_eq!(out.height, 4);
}

#[test]
fn clear_mask_changes_nothing() {
    let img = buf(vec![3, 1, 4, 1, 5, 9], 3, 2);
    let mask = buf(vec![0; 6], 3, 2);
    let out = apply_inpaint_to_buffer_with_mask(&img, &mask).unwrap();
    assert_eq!(out.buffer, img.buffer);
}

#[test]
fn mismatched_mask_is_rejected() {
    let img = buf(vec![1, 2], 2, 1);
    let mask = buf(vec![0, 0, 0], 3, 1);
    assert_eq!(
        apply_inpaint_to_buffer_with_mask(&img, &mask).unwrap_err(),
        Error::DimensionMismatch
    );
}

#[test]
fn starting_point_is_first_masked_in_scan_order() {
    let mask = buf(vec![0, 0, 0, 0, 0, 2, 0, 3, 0], 3, 3);
    let pt = find_starting_point(&mask).unwrap();
    assert_eq!((pt.x, pt.y), (2, 1));
    let clear = buf(vec![0; 9], 3, 3);
    assert!(find_starting_point(&clear).is_none());
}

#[test]
fn inpaint_support_covers_primary_channels_only() {
    assert!(inpaint_supported_for_camera(Camera::RED));
    assert!(inpaint_supported_for_camera(Camera::GREEN));
    assert!(inpaint_supported_for_camera(Camera::BLUE));
    assert!(!inpaint_supported_for_camera(Camera::METHANE));
    assert!(!inpaint_supported_for_camera(Camera::NONE));
}

#[test]
fn hot_pixel_is_replaced_by_neighbor_mean() {
    // One glaring outlier in an otherwise flat field.
    let mut v = vec![100i64; 25];
    v[12] = 10000;
    let img = buf(v, 5, 5);
    let out = hot_pixel_detection(&img, 3, &Ratio::new(5, 2)).unwrap();
    assert_eq!(out.get(2, 2).unwrap(), 100);
    // The flat field itself is untouched.
    assert_eq!(out.get(0, 0).unwrap(), 100);
    assert_eq!(out.get(4, 4).unwrap(), 100);
}

#[test]
fn moderate_variation_is_kept() {
    // No sample exceeds the threshold against its window statistics.
    let v: Vec<i64> = (0..25).map(|i| 100 + (i % 3)).collect();
    let img = buf(v.clone(), 5, 5);
    let out = hot_pixel_detection(&img, 3, &Ratio::new(10, 1)).unwrap();
    assert_eq!(out.buffer, v);
}

#[test]
fn propagation_chain_reads_earlier_fills() {
    // Two defective cells in a row: the second fill must read the first
    // fill's value, not the original defective sample.
    let img = buf(vec![10, 500, 900], 3, 1);
    let mask = buf(vec![0, 1, 1], 3, 1);
    let out = apply_inpaint_to_buffer_with_mask(&img, &mask).unwrap();
    // First chain step fills (1, 0) from the lone valid neighbor, then the
    // walk continues to (2, 0), whose only valid neighbor is now that fill.
    assert_eq!(out.buffer, vec![10, 10, 10]);
}
