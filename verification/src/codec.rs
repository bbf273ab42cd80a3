//! Decoding raster image files into sample buffers.
//!
//! The byte-level decoding of PNG (and the other raster formats the imaging
//! pipeline encounters) is delegated to the `image` crate; this module wraps
//! those calls and rebuilds the decoded samples into the library's own
//! raster type. The host program reads the file and hands the bytes in.

use vstd::prelude::*;

use crate::buffer::ImageBuffer;
use crate::error::Error;

verus! {

/// What decoding an encoded image as 16-bit grayscale yields: `None` when
/// the bytes are not a decodable image, otherwise the rows of samples.
/// Decoding is a function of the encoded bytes alone.
pub uninterp spec fn gray16_decoded(bytes: Seq<u8>) -> Option<Seq<Seq<u16>>>;

/// What decoding an encoded image as 8-bit grayscale yields, as above.
pub uninterp spec fn gray8_decoded(bytes: Seq<u8>) -> Option<Seq<Seq<u8>>>;

/// The bytes decode as an image.
pub open spec fn gray16_decodes(bytes: Seq<u8>) -> bool {
    gray16_decoded(bytes) is Some
}

/// The bytes decode as an image.
pub open spec fn gray8_decodes(bytes: Seq<u8>) -> bool {
    gray8_decoded(bytes) is Some
}

/// The rows of 16-bit gray samples of a decodable image.
pub open spec fn gray16_rows_of(bytes: Seq<u8>) -> Seq<Seq<u16>> {
    gray16_decoded(bytes)->Some_0
}

/// The rows of 8-bit gray samples of a decodable image.
pub open spec fn gray8_rows_of(bytes: Seq<u8>) -> Seq<Seq<u8>> {
    gray8_decoded(bytes)->Some_0
}

/// Relies on `image::load_from_memory` and `DynamicImage::into_luma16`:
/// decoding guesses the format from the byte content alone and either
/// fails on malformed input or yields a rectangular row-major raster whose
/// sample count is the product of its dimensions.
#[verifier::external_body]
fn decode_gray16(bytes: &Vec<u8>) -> (r: Option<(Vec<u16>, usize, usize)>)
    ensures
        r is Some <==> gray16_decoded(bytes@) is Some,
        r matches Some(t) ==> {
            let rows = gray16_rows_of(bytes@);
            &&& t.2 == rows.len()
            &&& forall|i: int| 0 <= i < rows.len() ==> #[trigger] rows[i].len() == t.1
            &&& t.0@ == rows.flatten()
            &&& t.0@.len() == t.1 * t.2
        },
{
    match image::load_from_memory(bytes.as_slice()) {
        Ok(img) => {
            let g = img.into_luma16();
            let w = g.width() as usize;
            let h = g.height() as usize;
            Some((g.into_raw(), w, h))
        },
        Err(_) => None,
    }
}

/// Relies on `image::load_from_memory` and `DynamicImage::into_luma8`, as
/// the 16-bit variant above.
#[verifier::external_body]
fn decode_gray8(bytes: &Vec<u8>) -> (r: Option<(Vec<u8>, usize, usize)>)
    ensures
        r is Some <==> gray8_decoded(bytes@) is Some,
        r matches Some(t) ==> {
            let rows = gray8_rows_of(bytes@);
            &&& t.2 == rows.len()
            &&& forall|i: int| 0 <= i < rows.len() ==> #[trigger] rows[i].len() == t.1
            &&& t.0@ == rows.flatten()
            &&& t.0@.len() == t.1 * t.2
        },
{
    match image::load_from_memory(bytes.as_slice()) {
        Ok(img) => {
            let g = img.into_luma8();
            let w = g.width() as usize;
            let h = g.height() as usize;
            Some((g.into_raw(), w, h))
        },
        Err(_) => None,
    }
}

/// A raster built from a decoded image: the flattened rows widened to
/// library samples.
pub open spec fn decoded16_samples(bytes: Seq<u8>) -> Seq<i64> {
    gray16_rows_of(bytes).flatten().map_values(|v: u16| v as i64)
}

/// A raster built from a decoded 8-bit image.
pub open spec fn decoded8_samples(bytes: Seq<u8>) -> Seq<i64> {
    gray8_rows_of(bytes).flatten().map_values(|v: u8| v as i64)
}

/// Decodes an encoded 16-bit grayscale image into a raster; succeeds
/// exactly when the bytes are a decodable image, and fails with a
/// file-not-found condition otherwise.
pub fn decode_image_16bit(bytes: &Vec<u8>) -> (r: Result<ImageBuffer, Error>)
    ensures
        r is Ok <==> gray16_decodes(bytes@),
        r matches Ok(b) ==> {
            &&& b.wf()
            &&& b.height == gray16_rows_of(bytes@).len()
            &&& b@ == decoded16_samples(bytes@)
            &&& forall|i: int|
                0 <= i < gray16_rows_of(bytes@).len() ==> #[trigger] gray16_rows_of(
                    bytes@)[i].len() == b.width
        },
        r matches Err(e) ==> e == Error::FileNotFound,
{
    let decoded = match decode_gray16(bytes) {
        Some(t) => t,
        None => { return Err(Error::FileNotFound) },
    };
    let (raw, w, h) = decoded;
    let n = raw.len();
    let mut v: Vec<i64> = Vec::new();
    let mut i: usize = 0;
    while i < n
        invariant
            i <= n,
            n == raw@.len(),
            v@.len() == i,
            forall|j: int| 0 <= j < i ==> v@[j] == raw@[j] as i64,
            forall|j: int| 0 <= j < i ==> 0 <= #[trigger] v@[j] <= 65535,
        decreases n - i,
    {
        v.push(raw[i] as i64);
        i = i + 1;
    }
    proof {
        assert(v@ =~= raw@.map_values(|x: u16| x as i64));
    }
    match ImageBuffer::from_vec(v, w, h) {
        Ok(b) => Ok(b),
        Err(_) => Err(Error::FileNotFound),
    }
}

/// Decodes an encoded 8-bit grayscale image into a raster; succeeds
/// exactly when the bytes are a decodable image, and fails with a
/// file-not-found condition otherwise.
pub fn decode_image_8bit(bytes: &Vec<u8>) -> (r: Result<ImageBuffer, Error>)
    ensures
        r is Ok <==> gray8_decodes(bytes@),
        r matches Ok(b) ==> {
            &&& b.wf()
            &&& b.height == gray8_rows_of(bytes@).len()
            &&& b@ == decoded8_samples(bytes@)
            &&& forall|i: int|
                0 <= i < gray8_rows_of(bytes@).len() ==> #[trigger] gray8_rows_of(
                    bytes@)[i].len() == b.width
        },
        r matches Err(e) ==> e == Error::FileNotFound,
{
    let decoded = match decode_gray8(bytes) {
        Some(t) => t,
        None => { return Err(Error::FileNotFound) },
    };
    let (raw, w, h) = decoded;
    let n = raw.len();
    let mut v: Vec<i64> = Vec::new();
    let mut i: usize = 0;
    while i < n
        invariant
            i <= n,
            n == raw@.len(),
            v@.len() == i,
            forall|j: int| 0 <= j < i ==> v@[j] == raw@[j] as i64,
            forall|j: int| 0 <= j < i ==> 0 <= #[trigger] v@[j] <= 255,
        decreases n - i,
    {
        v.push(raw[i] as i64);
        i = i + 1;
    }
    proof {
        assert(v@ =~= raw@.map_values(|x: u8| x as i64));
    }
    match ImageBuffer::from_vec(v, w, h) {
        Ok(b) => Ok(b),
        Err(_) => Err(Error::FileNotFound),
    }
}

} // verus!
