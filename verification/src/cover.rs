//! Cover art, decoded and scaled away from the screen.
//!
//! Reading the picture, the cache on disk and the thread this runs on are the caller's.
//! What is asked for, what is still wanted when it arrives, and what is done to a
//! picture on the way are decided here.

use image::imageops::FilterType;
use image::DynamicImage;
use vstd::prelude::*;
use crate::cache;
use crate::text::opt_view;
use crate::worker::{Worker, WorkerV};

verus! {

// ---------------------------------------------------------------------------
// The crate that knows pictures
// ---------------------------------------------------------------------------

/// A picture in memory.
#[verifier::external_type_specification]
#[verifier::external_body]
pub struct ExDynamicImage(DynamicImage);

/// How wide a picture is.
pub uninterp spec fn width_of(image: DynamicImage) -> u32;

/// How high a picture is.
pub uninterp spec fn height_of(image: DynamicImage) -> u32;

/// Decoding an encoded picture can come to this: the picture, or none when it cannot
/// be read.
pub uninterp spec fn decodes(picture: Seq<u8>, image: Option<DynamicImage>) -> bool;

/// Resampling a picture to the largest size of its shape that fits in `w` x `h` can
/// come to this. How its pixels are rounded is up to the machine.
pub uninterp spec fn resamples(image: DynamicImage, w: u32, h: u32, r: DynamicImage) -> bool;

/// `DynamicImage::width` is the width.
pub assume_specification[ DynamicImage::width ](image: &DynamicImage) -> (n: u32)
    ensures
        n == width_of(*image),
;

/// `DynamicImage::height` is the height.
pub assume_specification[ DynamicImage::height ](image: &DynamicImage) -> (n: u32)
    ensures
        n == height_of(*image),
;

/// The longest side a picture is scaled to: beyond it the number of bytes in between
/// no longer fits the machine.
pub const MAX_SIDE: u32 = 0x7ff_ffff;

/// `image::load_from_memory` guesses the format from the bytes and decodes them. An
/// error of any sort is no picture.
#[verifier::external_body]
pub(crate) fn decode(picture: &[u8]) -> (image: Option<DynamicImage>)
    ensures
        decodes(picture@, image),
{
    image::load_from_memory(picture).ok()
}

/// `w` x `h` is `of_w` x `of_h` scaled to fit in `box_w` x `box_h`: one side is the
/// whole box, and the other less than a pixel off the same shape.
pub open spec fn fits_shape(of_w: u32, of_h: u32, box_w: u32, box_h: u32, w: u32, h: u32) -> bool {
    &&& 1 <= w <= box_w
    &&& 1 <= h <= box_h
    &&& {
        ||| w == box_w && -of_w < h * of_w - of_h * box_w < of_w
        ||| h == box_h && -of_h < w * of_h - of_w * box_h < of_h
    }
}

/// `DynamicImage::resize` with `FilterType::Lanczos3` gives a new picture of the
/// largest size that fits in the box and keeps the shape, larger or smaller.
#[verifier::external_body]
fn resample(image: &DynamicImage, w: u32, h: u32) -> (r: DynamicImage)
    requires
        width_of(*image) > 0,
        height_of(*image) > 0,
        1 <= w <= MAX_SIDE,
        1 <= h <= MAX_SIDE,
    ensures
        resamples(*image, w, h, r),
        fits_shape(width_of(*image), height_of(*image), w, h, width_of(r), height_of(r)),
{
    image.resize(w, h, FilterType::Lanczos3)
}

/// A cover to load.
#[derive(Debug)]
pub struct Request {
    pub generation: u64,
    pub path: String,
    /// Artwork to fetch, for tracks whose picture is not in a tag.
    pub art_url: Option<String>,
    /// The pixel box the art will occupy. The picture comes back scaled to fill it,
    /// up or down, so nothing is resized while drawing.
    pub box_px: (u32, u32),
}

/// A cover that was loaded.
pub struct Loaded {
    pub generation: u64,
    /// `None` means the track simply has no cover.
    pub image: Option<DynamicImage>,
    /// Where the scaled cover sits in the cache.
    pub file: Option<String>,
}

/// Hands covers out to be loaded, one at a time and only the newest.
pub struct CoverLoader {
    pub worker: Worker<Request, (Option<DynamicImage>, Option<String>)>,
}

impl CoverLoader {
    pub fn new() -> (r: CoverLoader)
        ensures
            r.worker@ == WorkerV::<Request, (Option<DynamicImage>, Option<String>)>::idle(),
    {
        CoverLoader { worker: Worker::new() }
    }

    /// Queue `request`, discarding one that has not started yet.
    pub fn request(&mut self, request: Request)
        ensures
            final(self).worker@ == old(self).worker@.requested(request.generation, request),
    {
        self.worker.request(request.generation, request);
    }

    /// Whatever has finished since the last call.
    pub fn drain(&mut self) -> (r: Vec<Loaded>)
        ensures
            r@.len() == old(self).worker@.results.len(),
            forall|i: int|
                0 <= i < r@.len() ==> {
                    let (generation, (image, file)) = old(self).worker@.results[i];
                    (#[trigger] r@[i]) == (Loaded { generation, image, file })
                },
            final(self).worker@ == old(self).worker@.drained(),
    {
        let mut rest = self.worker.drain();
        let ghost all = rest@;
        let mut r: Vec<Loaded> = Vec::new();
        assert(all.skip(0) =~= all);
        while rest.len() > 0
            invariant
                r@.len() <= all.len(),
                rest@ == all.skip(r@.len() as int),
                forall|i: int|
                    0 <= i < r@.len() ==> {
                        let (generation, (image, file)) = all[i];
                        (#[trigger] r@[i]) == (Loaded { generation, image, file })
                    },
            decreases rest@.len(),
        {
            let ghost n = r@.len() as int;
            assert(rest@[0] == all[n]);
            let (generation, (image, file)) = rest.remove(0);
            r.push(Loaded { generation, image, file });
            assert(rest@ =~= all.skip(n + 1));
        }
        r
    }
}

// ---------------------------------------------------------------------------
// Scaling
// ---------------------------------------------------------------------------

/// A side of a box, which is one pixel at least.
pub open spec fn side(n: u32) -> u32 {
    if n == 0 {
        1
    } else {
        n
    }
}

/// `r` is a picture scaled to fill `box_px` as far as its shape allows. One of no size
/// at all is left as it is.
pub open spec fn fills(image: DynamicImage, box_px: (u32, u32), r: DynamicImage) -> bool {
    if width_of(image) == 0 || height_of(image) == 0 {
        r == image
    } else {
        &&& resamples(image, side(box_px.0), side(box_px.1), r)
        &&& fits_shape(
            width_of(image),
            height_of(image),
            side(box_px.0),
            side(box_px.1),
            width_of(r),
            height_of(r),
        )
    }
}

/// Scale to fill `box_px` as far as the shape allows, enlarging if needed.
pub fn fill(img: DynamicImage, box_px: (u32, u32)) -> (r: DynamicImage)
    requires
        box_px.0 <= MAX_SIDE,
        box_px.1 <= MAX_SIDE,
    ensures
        fills(img, box_px, r),
{
    let box_w: u32 = if box_px.0 == 0 {
        1
    } else {
        box_px.0
    };
    let box_h: u32 = if box_px.1 == 0 {
        1
    } else {
        box_px.1
    };
    if img.width() == 0 || img.height() == 0 {
        return img;
    }
    resample(&img, box_w, box_h)
}

/// What is to be done about a cover.
#[derive(Debug)]
pub enum Prepared {
    /// This is what there is: the picture, and the file it is in.
    Ready(Option<DynamicImage>, Option<String>),
    /// Keep this picture in the cache under its key, and go on with [`stored`].
    Store { key: String, image: DynamicImage },
}

/// What is to be done about a cover once its picture has been decoded, or could not be.
pub open spec fn is_scaled(
    key: Seq<char>,
    image: Option<DynamicImage>,
    box_px: (u32, u32),
    r: Prepared,
) -> bool {
    match image {
        None => r == Prepared::Ready(None, None),
        Some(image) => {
            &&& r matches Prepared::Store { key: k, image: scaled }
            &&& k@ == key
            &&& fills(image, box_px, scaled)
        },
    }
}

/// Scale a cover that was decoded, to be kept under `key`.
pub fn scale(key: String, image: Option<DynamicImage>, box_px: (u32, u32)) -> (r: Prepared)
    requires
        box_px.0 <= MAX_SIDE,
        box_px.1 <= MAX_SIDE,
    ensures
        is_scaled(key@, image, box_px, r),
{
    match image {
        Some(image) => Prepared::Store { key, image: fill(image, box_px) },
        None => Prepared::Ready(None, None),
    }
}

/// Decode and scale a track's cover to fill `box_px`. `picture` is the cover as it was
/// found, `dir` the directory of the cache, and `cached` what the cache has under the
/// key of this picture.
///
/// The cheap steps come first: a cover that is in the cache is never decoded.
pub fn prepare(
    picture: Option<Vec<u8>>,
    box_px: (u32, u32),
    dir: Option<String>,
    cached: Option<DynamicImage>,
) -> (r: Prepared)
    requires
        box_px.0 <= MAX_SIDE,
        box_px.1 <= MAX_SIDE,
    ensures
        match picture {
            None => r == Prepared::Ready(None, None),
            Some(bytes) => {
                let key = cache::entry_name(bytes@, box_px.0, box_px.1);
                if cached is Some {
                    &&& r matches Prepared::Ready(image, file)
                    &&& image == cached
                    &&& opt_view(file) == cache::entry_path(opt_view(dir), key)
                } else {
                    exists|image: Option<DynamicImage>| #[trigger]
                        decodes(bytes@, image) && is_scaled(key, image, box_px, r)
                }
            },
        },
{
    let Some(bytes) = picture else {
        return Prepared::Ready(None, None);
    };
    let key = cache::key(bytes.as_slice(), box_px);
    if cached.is_some() {
        let file = cache::path(dir, key.as_str());
        return Prepared::Ready(cached, file);
    }
    let image = decode(bytes.as_slice());
    scale(key, image, box_px)
}

/// A cover after an attempt to keep it in the cache. The file is named only if it
/// really landed.
pub fn stored(key: &str, image: DynamicImage, dir: Option<String>, landed: bool) -> (r: (
    Option<DynamicImage>,
    Option<String>,
))
    ensures
        r.0 == Some(image),
        opt_view(r.1) == (if landed {
            cache::entry_path(opt_view(dir), key@)
        } else {
            None
        }),
{
    if landed {
        (Some(image), cache::path(dir, key))
    } else {
        (Some(image), None)
    }
}

} // verus!
