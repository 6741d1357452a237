//! The raster operations that the `image` crate performs for the library:
//! resampling, luminance, grey-to-RGB expansion and JPEG encoding. Each is a
//! trusted wrapper over plain bytes; its contract says what the crate's source shows.

use vstd::prelude::*;
use image::{imageops, DynamicImage, GrayImage, ImageBuffer, RgbImage};
use image::codecs::jpeg::JpegEncoder;

verus! {

/// Resampling filter used when scaling a photo into its cell.
#[derive(Debug, Clone, Copy, PartialEq, Eq, Structural)]
pub enum Resample {
    /// Fast bilinear filter, used for on-screen previews.
    Triangle,
    /// Lanczos filter with a window of 3, used for print output.
    Lanczos3,
}

/// The RGB bytes of image `src` (`sw` x `sh`) resampled to `nw` x `nh` with `filter`.
pub uninterp spec fn resized(src: Seq<u8>, sw: u32, sh: u32, nw: u32, nh: u32, filter: Resample) -> Seq<u8>;

/// An RGB image whose every pixel is the grey level of the matching byte of `luma`, repeated
/// in the three channels.
pub open spec fn gray_rgb(luma: Seq<u8>) -> Seq<u8> {
    Seq::new(3 * luma.len(), |i: int| luma[i / 3])
}

/// The JPEG file that `image` encodes from the RGB bytes of a `w` x `h` image at `quality`.
pub uninterp spec fn jpeg_encoded(rgb: Seq<u8>, w: u32, h: u32, quality: u8) -> Seq<u8>;

/// The RGB bytes, width and height of the thumbnail that `image` makes of image `src`
/// (`w` x `h`) to fit within `max_w` x `max_h`.
pub uninterp spec fn thumbnail_of(src: Seq<u8>, w: u32, h: u32, max_w: u32, max_h: u32) -> (Seq<u8>, u32, u32);

/// Luminance of one RGB pixel with the sRGB weights 0.2126, 0.7152 and 0.0722, in integers.
pub open spec fn luma(r: u8, g: u8, b: u8) -> int {
    (2126 * r + 7152 * g + 722 * b) / 10000
}

/// Calls `image::imageops::resize` on an RGB image. The result has the requested size and,
/// when the size does not change, the same pixels; which pixels it has otherwise is left to
/// the name `resized`.
#[verifier::external_body]
pub(crate) fn resize_rgb(src: &Vec<u8>, sw: u32, sh: u32, nw: u32, nh: u32, filter: Resample) -> (r: Vec<u8>)
    requires
        src@.len() == 3 * sw * sh,
        3 * nw * nh <= isize::MAX,
        16 * sw * nh <= isize::MAX,
    ensures
        r@ == resized(src@, sw, sh, nw, nh, filter),
        r@.len() == 3 * nw * nh,
        nw == sw && nh == sh ==> r@ == src@,
{
    let img: RgbImage = ImageBuffer::from_raw(sw, sh, src.clone()).unwrap();
    let f = match filter {
        Resample::Triangle => imageops::FilterType::Triangle,
        Resample::Lanczos3 => imageops::FilterType::Lanczos3,
    };
    imageops::resize(&img, nw, nh, f).into_raw()
}

/// Calls `image::imageops::grayscale` on an RGB image: one byte per pixel, the integer sRGB
/// luminance of that pixel.
#[verifier::external_body]
pub(crate) fn grayscale_rgb(src: &Vec<u8>, w: u32, h: u32) -> (r: Vec<u8>)
    requires
        src@.len() == 3 * w * h,
    ensures
        r@.len() == w * h,
        forall|p: int| 0 <= p < w * h ==> #[trigger] r@[p] as int == luma(src@[3 * p], src@[3 * p + 1], src@[3 * p + 2]),
{
    let img: RgbImage = ImageBuffer::from_raw(w, h, src.clone()).unwrap();
    imageops::grayscale(&img).into_raw()
}

/// Calls `image::DynamicImage::to_rgb8` on a greyscale image: each grey byte is expanded to f32
/// as `v * (1 / 255)` and brought back as `round(x * 255)`, which gives `v` again for every byte,
/// into each of the three channels.
#[verifier::external_body]
pub(crate) fn gray_to_rgb(luma: &Vec<u8>, w: u32, h: u32) -> (r: Vec<u8>)
    requires
        luma@.len() == w * h,
        3 * w * h <= isize::MAX,
    ensures
        r@ == gray_rgb(luma@),
{
    let img: GrayImage = ImageBuffer::from_raw(w, h, luma.clone()).unwrap();
    DynamicImage::ImageLuma8(img).to_rgb8().into_raw()
}

/// Calls `image::codecs::jpeg::JpegEncoder::encode_image` at `quality` on an RGB image and
/// returns the bytes written. An image with a side of 0 or above 65535 pixels is refused by
/// the encoder before anything is written, so its result is empty.
#[verifier::external_body]
pub(crate) fn encode_jpeg(rgb: &Vec<u8>, w: u32, h: u32, quality: u8) -> (r: Vec<u8>)
    requires
        rgb@.len() == 3 * w * h,
    ensures
        r@ == jpeg_encoded(rgb@, w, h, quality),
        (w == 0 || h == 0 || w > 65535 || h > 65535) ==> r@.len() == 0,
{
    let img: RgbImage = ImageBuffer::from_raw(w, h, rgb.clone()).unwrap();
    let mut bytes: Vec<u8> = Vec::new();
    {
        let mut encoder = JpegEncoder::new_with_quality(&mut bytes, quality);
        let _ = encoder.encode_image(&img);
    }
    bytes
}

/// Calls `image::DynamicImage::thumbnail` on an RGB image: the image scaled down with its aspect
/// ratio kept, to the largest size within `max_w` x `max_h` (each side at least 1), every source
/// pixel contributing to one target pixel. Which pixels it has is left to the name `thumbnail_of`.
#[verifier::external_body]
pub(crate) fn thumbnail_rgb(src: &Vec<u8>, w: u32, h: u32, max_w: u32, max_h: u32) -> (r: (Vec<u8>, u32, u32))
    requires
        src@.len() == 3 * w * h,
        max_w >= 1,
        max_h >= 1,
        3 * max_w * max_h <= isize::MAX,
    ensures
        (r.0@, r.1, r.2) == thumbnail_of(src@, w, h, max_w, max_h),
        r.0@.len() == 3 * r.1 * r.2,
        1 <= r.1 <= max_w,
        1 <= r.2 <= max_h,
{
    let img: RgbImage = ImageBuffer::from_raw(w, h, src.clone()).unwrap();
    let thumb = DynamicImage::ImageRgb8(img).thumbnail(max_w, max_h).to_rgb8();
    let (tw, th) = thumb.dimensions();
    (thumb.into_raw(), tw, th)
}

} // verus!
