use junocam::codec::{decode_image_16bit, decode_image_8bit};
use junocam::error::Error;
use junocam::paths::get_parent;
use junocam::rawimage::RawImage;

/// Encodes an 8-bit grayscale raster as PNG bytes.
fn png_bytes_8bit(samples: Vec<u8>, w: u32, h: u32) -> Vec<u8> {
    let img = image::GrayImage::from_raw(w, h, samples).unwrap();
    let mut out = std::io::Cursor::new(Vec::new());
    img.write_to(&mut out, image::ImageFormat::Png).unwrap();
    out.into_inner()
}

/// Encodes a 16-bit grayscale raster as PNG bytes.
fn png_bytes_16bit(samples: Vec<u16>, w: u32, h: u32) -> Vec<u8> {
    let img: image::ImageBuffer<image::Luma<u16>, Vec<u16>> =
        image::ImageBuffer::from_raw(w, h, samples).unwrap();
    let mut out = std::io::Cursor::new(Vec::new());
    img.write_to(&mut out, image::ImageFormat::Png).unwrap();
    out.into_inner()
}

#[test]
fn decodes_8bit_grayscale_samples() {
    let bytes = png_bytes_8bit(vec![0, 17, 128, 255, 9, 33], 3, 2);
    let b = decode_image_8bit(&bytes).unwrap();
    assert_eq!((b.width, b.height), (3, 2));
    assert_eq!(b.buffer, vec![0, 17, 128, 255, 9, 33]);
}

#[test]
fn decodes_16bit_grayscale_samples() {
    let bytes = png_bytes_16bit(vec![0, 700, 65535, 4000], 2, 2);
    let b = decode_image_16bit(&bytes).unwrap();
    assert_eq!((b.width, b.height), (2, 2));
    assert_eq!(b.buffer, vec![0, 700, 65535, 4000]);
}

#[test]
fn undecodable_bytes_report_file_not_found() {
    let garbage = vec![1u8, 2, 3, 4];
    assert_eq!(decode_image_8bit(&garbage).unwrap_err(), Error::FileNotFound);
    assert_eq!(decode_image_16bit(&garbage).unwrap_err(), Error::FileNotFound);
}

#[test]
fn raw_image_loads_from_encoded_stack() {
    // One full-height stack of three strips for the flight strip height.
    let w = 4u32;
    let h = (3 * 128) as u32;
    let samples: Vec<u8> = (0..(w * h)).map(|i| (i % 251) as u8).collect();
    let bytes = png_bytes_8bit(samples.clone(), w, h);
    let raw = RawImage::new_from_image(&bytes).unwrap();
    assert_eq!(raw.get_triplet_count(), 1);
    assert_eq!(raw.rawdata.width, 4);
    assert_eq!(raw.rawdata.height, 384);
    for (i, s) in samples.iter().enumerate() {
        assert_eq!(raw.rawdata.buffer[i], *s as i64);
    }
    // Reassembly reproduces the decoded raster while nothing is corrected.
    let out = raw.assemble().unwrap();
    assert_eq!(out.buffer, raw.rawdata.buffer);
}

#[test]
fn parent_path_is_prefix_before_last_separator() {
    assert_eq!(get_parent("a/b/c.png"), "a/b");
    assert_eq!(get_parent("/tmp/x"), "/tmp");
    assert_eq!(get_parent("file.png"), "");
}
