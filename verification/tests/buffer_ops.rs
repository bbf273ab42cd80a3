use junocam::buffer::{ImageBuffer, MinMax, Ratio};
use junocam::error::Error;

fn buf(v: Vec<i64>, w: usize, h: usize) -> ImageBuffer {
    ImageBuffer::from_vec(v, w, h).unwrap()
}

#[test]
fn get_after_put_returns_written_value() {
    let mut b = ImageBuffer::new(4, 3).unwrap();
    for y in 0..3usize {
        for x in 0..4usize {
            let v = (y * 4 + x) as i64 * 7 + 1;
            b.put(x, y, v).unwrap();
            assert_eq!(b.get(x, y).unwrap(), v);
        }
    }
    // And the other cells are untouched by a later put.
    b.put(2, 1, 999).unwrap();
    assert_eq!(b.get(2, 1).unwrap(), 999);
    assert_eq!(b.get(1, 1).unwrap(), 5 * 7 + 1);
}

#[test]
fn out_of_bounds_access_reports_invalid_coordinates() {
    let mut b = ImageBuffer::new(2, 2).unwrap();
    assert_eq!(b.get(2, 0), Err(Error::InvalidCoordinates));
    assert_eq!(b.get(0, 2), Err(Error::InvalidCoordinates));
    assert_eq!(b.put(5, 0, 1), Err(Error::InvalidCoordinates));
    assert_eq!(b.get(1, 1).unwrap(), 0);
}

#[test]
fn from_vec_checks_dimensions() {
    assert_eq!(
        ImageBuffer::from_vec(vec![1, 2, 3], 2, 2).unwrap_err(),
        Error::DimensionMismatch
    );
    let b = buf(vec![1, 2, 3, 4], 2, 2);
    assert_eq!(b.get(1, 1).unwrap(), 4);
}

#[test]
fn add_then_subtract_reproduces_original() {
    let base = buf(vec![10, 0, 250, 65535, 7, 3], 3, 2);
    let other = buf(vec![5, 90, 1, 40, 0, 12], 3, 2);
    let sum = base.add(&other).unwrap();
    let back = sum.subtract(&other).unwrap();
    for i in 0..6usize {
        assert_eq!(back.buffer[i], base.buffer[i]);
    }
}

#[test]
fn subtract_floors_at_zero() {
    let a = buf(vec![5, 10, 0], 3, 1);
    let b = buf(vec![9, 4, 2], 3, 1);
    let d = a.subtract(&b).unwrap();
    assert_eq!(d.buffer, vec![0, 6, 0]);
}

#[test]
fn size_mismatch_is_reported() {
    let a = buf(vec![1, 2], 2, 1);
    let b = buf(vec![1, 2, 3], 3, 1);
    assert_eq!(a.add(&b).unwrap_err(), Error::DimensionMismatch);
    assert_eq!(a.subtract(&b).unwrap_err(), Error::DimensionMismatch);
    assert_eq!(a.multiply(&b).unwrap_err(), Error::DimensionMismatch);
    assert_eq!(a.divide(&b).unwrap_err(), Error::DimensionMismatch);
}

#[test]
fn divide_by_zero_cell_yields_zero() {
    let a = buf(vec![10, 9, 8], 3, 1);
    let b = buf(vec![2, 0, 3], 3, 1);
    let q = a.divide(&b).unwrap();
    assert_eq!(q.buffer, vec![5, 0, 2]);
}

#[test]
fn divide_into_maps_each_cell_to_quotient() {
    let a = buf(vec![5, 0, 2], 3, 1);
    let q = a.divide_into(100).unwrap();
    assert_eq!(q.buffer, vec![20, 0, 50]);
}

#[test]
fn scale_applies_rational_factor() {
    let a = buf(vec![1000, 10, 3], 3, 1);
    let s = a.scale(&Ratio::new(902, 1000)).unwrap();
    assert_eq!(s.buffer, vec![902, 9, 2]);
}

#[test]
fn mean_averages_strictly_positive_samples_only() {
    let a = buf(vec![0, 10, 20, -5, 0, 33], 3, 2);
    // Positive samples: 10, 20, 33; mean truncates toward zero.
    assert_eq!(a.mean(), 21);
    let zeros = buf(vec![0, 0], 2, 1);
    assert_eq!(zeros.mean(), 0);
}

#[test]
fn min_max_and_override() {
    let a = buf(vec![9, -4, 100, 3], 2, 2);
    let MinMax { min, max } = a.get_min_max(None).unwrap();
    assert_eq!((min, max), (-4, 100));
    let o = a.get_min_max(Some(0)).unwrap();
    assert_eq!((o.min, o.max), (0, 100));
    assert!(ImageBuffer::new_empty().unwrap().get_min_max(None).is_none());
}

#[test]
fn normalize_hits_full_target_range() {
    let a = buf(vec![50, 100, 75, 60], 4, 1);
    let n = a.normalize(0, 65535).unwrap();
    let mm = n.get_min_max(None).unwrap();
    assert_eq!(mm.min, 0);
    assert_eq!(mm.max, 65535);
    // The minimum cell lands on the low edge, the maximum on the high edge.
    assert_eq!(n.buffer[0], 0);
    assert_eq!(n.buffer[1], 65535);
    // And negative inputs are handled by the shift pass.
    let b = buf(vec![-10, 30], 2, 1);
    let nb = b.normalize(0, 400).unwrap();
    assert_eq!(nb.buffer, vec![0, 400]);
}

#[test]
fn normalize_flat_input_maps_to_low_edge() {
    let a = buf(vec![7, 7, 7], 3, 1);
    let n = a.normalize(5, 65535).unwrap();
    assert_eq!(n.buffer, vec![5, 5, 5]);
}

#[test]
fn shift_to_min_zero_rebases_samples() {
    let a = buf(vec![-3, 4, 0], 3, 1);
    let s = a.shift_to_min_zero().unwrap();
    assert_eq!(s.buffer, vec![0, 7, 3]);
}

#[test]
fn clip_bounds_samples() {
    let mut a = buf(vec![-9, 100, 255, 300], 4, 1);
    a.clip_mut(0, 255);
    assert_eq!(a.buffer, vec![0, 100, 255, 255]);
}

#[test]
fn get_slice_extracts_a_band() {
    let a = buf((0..12).collect(), 3, 4);
    let s = a.get_slice(1, 2).unwrap();
    assert_eq!((s.width, s.height), (3, 2));
    assert_eq!(s.buffer, vec![3, 4, 5, 6, 7, 8]);
    assert_eq!(a.get_slice(3, 2).unwrap_err(), Error::DimensionMismatch);
}

#[test]
fn paste_writes_rectangle_and_keeps_rest() {
    let mut into = ImageBuffer::new(4, 4).unwrap();
    let src = buf(vec![1, 2, 3, 4], 2, 2);
    into.paste_mut(&src, 1, 2).unwrap();
    assert_eq!(into.get(1, 2).unwrap(), 1);
    assert_eq!(into.get(2, 2).unwrap(), 2);
    assert_eq!(into.get(1, 3).unwrap(), 3);
    assert_eq!(into.get(2, 3).unwrap(), 4);
    assert_eq!(into.get(0, 0).unwrap(), 0);
    assert_eq!(
        into.paste_mut(&src, 3, 3).unwrap_err(),
        Error::DimensionMismatch
    );
}

#[test]
fn crop_takes_centered_window() {
    let a = buf((0..16).collect(), 4, 4);
    let c = a.crop(2, 2).unwrap();
    assert_eq!(c.buffer, vec![5, 6, 9, 10]);
}

#[test]
fn shift_moves_samples_and_zero_fills() {
    let a = buf(vec![1, 2, 3, 4], 2, 2);
    let s = a.shift(1, 0).unwrap();
    assert_eq!(s.buffer, vec![0, 1, 0, 3]);
}

#[test]
fn red_downsamples_by_two() {
    let a = buf((0..16).collect(), 4, 4);
    let r = a.red().unwrap();
    assert_eq!((r.width, r.height), (2, 2));
    assert_eq!(r.buffer, vec![0, 2, 8, 10]);
}
