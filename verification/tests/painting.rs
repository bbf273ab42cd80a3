use junocam::buffer::ImageBuffer;
use junocam::reproject::{band_for_strip_index, Corner, Quad, RgbRaster};

fn quad(tl: (i64, i64), bl: (i64, i64), br: (i64, i64), tr: (i64, i64)) -> Quad {
    Quad {
        tl: Corner { x: tl.0, y: tl.1 },
        bl: Corner { x: bl.0, y: bl.1 },
        br: Corner { x: br.0, y: br.1 },
        tr: Corner { x: tr.0, y: tr.1 },
    }
}

#[test]
fn paint_fills_quad_and_leaves_rest() {
    let mut map = RgbRaster::create(6, 6).unwrap();
    let q = quad((1, 1), (1, 3), (3, 3), (3, 1));
    map.paint_square(&q, 7, false, 0).unwrap();
    for y in 0..6usize {
        for x in 0..6usize {
            let expected = if (1..=3).contains(&x) && (1..=3).contains(&y) { 7 } else { 0 };
            assert_eq!(map.red.get(x, y).unwrap(), expected, "at {} {}", x, y);
            assert_eq!(map.green.get(x, y).unwrap(), 0);
            assert_eq!(map.blue.get(x, y).unwrap(), 0);
        }
    }
}

#[test]
fn later_paint_wins_on_overlap() {
    let mut map = RgbRaster::create(6, 6).unwrap();
    map.paint_square(&quad((0, 0), (0, 2), (2, 2), (2, 0)), 5, false, 2).unwrap();
    map.paint_square(&quad((1, 1), (1, 3), (3, 3), (3, 1)), 9, false, 2).unwrap();
    // The overlap carries the later value: no blending, last writer wins.
    assert_eq!(map.blue.get(1, 1).unwrap(), 9);
    assert_eq!(map.blue.get(2, 2).unwrap(), 9);
    assert_eq!(map.blue.get(0, 0).unwrap(), 5);
}

#[test]
fn seam_crossing_quad_wraps_when_allowed() {
    let mut map = RgbRaster::create(6, 4).unwrap();
    let q = quad((-1, 0), (-1, 2), (1, 2), (1, 0));
    map.paint_square(&q, 3, true, 1).unwrap();
    for y in 0..=2usize {
        assert_eq!(map.green.get(0, y).unwrap(), 3);
        assert_eq!(map.green.get(1, y).unwrap(), 3);
        assert_eq!(map.green.get(5, y).unwrap(), 3, "wrapped column at row {}", y);
        assert_eq!(map.green.get(3, y).unwrap(), 0);
    }
    // Without wrapping the off-raster part is clipped away instead.
    let mut flat = RgbRaster::create(6, 4).unwrap();
    flat.paint_square(&q, 3, false, 1).unwrap();
    assert_eq!(flat.green.get(5, 0).unwrap(), 0);
    assert_eq!(flat.green.get(0, 0).unwrap(), 3);
}

#[test]
fn output_channel_order_is_reversed() {
    assert_eq!(band_for_strip_index(0), 2);
    assert_eq!(band_for_strip_index(1), 1);
    assert_eq!(band_for_strip_index(2), 0);
}

#[test]
fn joint_normalization_keeps_channel_balance() {
    let mut map = RgbRaster {
        red: ImageBuffer::from_vec(vec![0, 100], 2, 1).unwrap(),
        green: ImageBuffer::from_vec(vec![50, 50], 2, 1).unwrap(),
        blue: ImageBuffer::from_vec(vec![25, 25], 2, 1).unwrap(),
    };
    map.normalize_to_16bit().unwrap();
    assert_eq!(map.red.buffer, vec![0, 65535]);
    assert_eq!(map.green.buffer, vec![32767, 32767]);
    assert_eq!(map.blue.buffer, vec![16383, 16383]);
}

#[test]
fn separate_normalization_stretches_each_channel() {
    let mut map = RgbRaster {
        red: ImageBuffer::from_vec(vec![0, 100], 2, 1).unwrap(),
        green: ImageBuffer::from_vec(vec![40, 90], 2, 1).unwrap(),
        blue: ImageBuffer::from_vec(vec![7, 7], 2, 1).unwrap(),
    };
    map.normalize_to_16bit_seperate_channels().unwrap();
    assert_eq!(map.red.buffer, vec![0, 65535]);
    assert_eq!(map.green.buffer, vec![0, 65535]);
    // A spreadless channel maps onto the low edge.
    assert_eq!(map.blue.buffer, vec![0, 0]);
}
