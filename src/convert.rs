use vstd::prelude::*;
use crate::pixel::{PixelBuffer, rgb_len};
use crate::driver::Driver;

verus! {

/// Side of the square that thumbnails fit in.
pub const THUMB_SIZE: u32 = 200;

/// The width and height that a `width` × `height` image is scaled to so that it
/// fits inside `box_w` × `box_h` with its aspect ratio kept.
pub uninterp spec fn resized_size_of(width: u32, height: u32, box_w: u32, box_h: u32) -> (u32, u32);

/// A size that fills `box_w` × `box_h` along one side and stays inside it
/// along the other.
pub open spec fn fits_box(w: u32, h: u32, box_w: u32, box_h: u32) -> bool {
    &&& 1 <= w <= box_w
    &&& 1 <= h <= box_h
    &&& (w == box_w || h == box_h)
}

/// `w` × `h` has the aspect ratio of `width` × `height`, up to rounding each
/// side to a whole pixel.
pub open spec fn keeps_aspect(w: u32, h: u32, width: u32, height: u32) -> bool {
    let d = w * height - h * width;
    -(if width >= height { width as int } else { height as int }) <= d <= (if width >= height {
        width as int
    } else {
        height as int
    })
}

/// A thumbnail of `src`: the size that the source is scaled to, which fits the
/// thumbnail box with the source's aspect ratio, and packed pixels of that size.
pub open spec fn is_thumbnail_of(t: (u32, u32, Seq<u8>), src: (u32, u32, Seq<u8>)) -> bool {
    &&& fits_box(t.0, t.1, THUMB_SIZE, THUMB_SIZE)
    &&& keeps_aspect(t.0, t.1, src.0, src.1)
    &&& (t.0, t.1) == resized_size_of(src.0, src.1, THUMB_SIZE, THUMB_SIZE)
    &&& t.2.len() == rgb_len(t.0 as int, t.1 as int)
}

/// A still image that has at least one pixel.
pub open spec fn still_with_pixels(still: Option<(u32, u32, Seq<u8>)>) -> bool {
    match still {
        Some(img) => img.0 > 0 && img.1 > 0,
        None => false,
    }
}

/// Relies on image's `DynamicImage::resize` with `FilterType::Lanczos3` on an
/// RGB8 image: it scales by the smaller of the two ratios box/side, rounds each
/// side to a whole pixel of at least 1 (a function of the sizes alone), and
/// resamples to that size, or returns the image unchanged when its size is
/// already the box. The resampled pixels are not stated: the filter's kernel
/// goes through `f32::sin`, whose precision std leaves open.
#[verifier::external_body]
fn resize_to_fit(width: u32, height: u32, data: Vec<u8>, box_w: u32, box_h: u32) -> (r: (u32, u32, Vec<u8>))
    requires
        data@.len() == rgb_len(width as int, height as int),
        width >= 1,
        height >= 1,
        box_w >= 1,
        box_h >= 1,
    ensures
        fits_box(r.0, r.1, box_w, box_h),
        keeps_aspect(r.0, r.1, width, height),
        (r.0, r.1) == resized_size_of(width, height, box_w, box_h),
        r.2@.len() == rgb_len(r.0 as int, r.1 as int),
{
    let src = image::RgbImage::from_raw(width, height, data).unwrap();
    let out = image::DynamicImage::ImageRgb8(src)
        .resize(box_w, box_h, image::imageops::FilterType::Lanczos3)
        .into_rgb8();
    (out.width(), out.height(), out.into_raw())
}

/// The thumbnail of one frame: none for a frame without pixels.
pub fn thumbnail_of(frame: &PixelBuffer) -> (r: Option<PixelBuffer>)
    ensures
        r is Some <==> frame@.0 > 0 && frame@.1 > 0,
        r matches Some(t) ==> t.wf() && is_thumbnail_of(t@, frame@),
{
    let width = frame.width();
    let height = frame.height();
    if width == 0 || height == 0 {
        return None;
    }
    let data = frame.duplicate().into_raw();
    let (w, h, pixels) = resize_to_fit(width, height, data, THUMB_SIZE, THUMB_SIZE);
    PixelBuffer::from_raw(w, h, pixels)
}

/// A thumbnail of `media`'s first frame: its still image, or else the first
/// frame of its stream. None when no frame could be obtained or it has no pixels.
pub fn thumbnail<D: Driver>(media: &mut D) -> (r: Option<PixelBuffer>)
    ensures
        still_with_pixels(old(media).still()) ==> (r matches Some(t) && is_thumbnail_of(
            t@,
            old(media).still()->Some_0,
        )),
        old(media).still() is None && old(media).stream().len() == 0 ==> r is None,
        old(media).still() is None ==> (r matches Some(t) ==> old(media).stream().len() > 0
            && is_thumbnail_of(t@, old(media).stream()[0])),
        r matches Some(t) ==> t.wf() && t@.0 <= THUMB_SIZE && t@.1 <= THUMB_SIZE,
{
    match media.frame(1) {
        Some(f) => {
            thumbnail_of(&f)
        },
        None => None,
    }
}

} // verus!
