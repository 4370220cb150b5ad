//! The filter engine's decisions, laid out as the steps a driver takes:
//! pick the raster to work on, transform its pixels, name the output
//! file, and fall back to the input path when writing fails.
//!
//! Reading and writing image files is the driver's business; the engine
//! states exactly what each step yields for whatever the files held.

use vstd::prelude::*;
use crate::filter::FilterKind;
use crate::filter::spec_parse_filter;
use crate::filter::parse_filter;
use crate::image::Image;
use crate::transform::is_inverted;
use crate::transform::is_contrasted;
use crate::transform::is_grayscale_of;
use crate::transform::is_sepia_of;
use crate::transform::invert;
use crate::transform::contrast;
use crate::transform::grayscale;
use crate::transform::sepia;
use crate::transform::identity_copy;
use crate::geometry::is_rotated_cw;
use crate::geometry::is_rotated_ccw;
use crate::geometry::is_resized_half;
use crate::geometry::rotate_cw;
use crate::geometry::rotate_ccw;
use crate::geometry::resize_half;
use crate::kernel::is_sharpened;
use crate::kernel::is_blurred;
use crate::kernel::sharpen;
use crate::kernel::blur;
use crate::paths::contains_sub;
use crate::paths::reapply_marker;
use crate::paths::spec_strip;
use crate::paths::is_reapplying;
use crate::paths::strip_processed;

verus! {

/// What the engine made of a request's pixels.
pub enum Transformed {
    /// The transform is finished; this is the raster to encode.
    Done(Image),
    /// The single-channel luma rendering; the caller must still run the
    /// edge detector over it, which the engine does not own.
    EdgeInput(Image),
}

impl Transformed {
    /// Whether the engine finished the transform itself.
    pub open spec fn is_done(self) -> bool {
        matches!(self, Transformed::Done(_))
    }

    /// The raster carried either way.
    pub open spec fn image(self) -> Image {
        match self {
            Transformed::Done(img) => img,
            Transformed::EdgeInput(img) => img,
        }
    }
}

/// The dispatch table: what the answer to a request must be, filter by
/// filter.  A request that names no known filter gets a byte-identical
/// copy of the source raster.
pub open spec fn transform_ok(img: Image, filter: Seq<char>, r: Transformed) -> bool {
    match spec_parse_filter(filter) {
        None => r.is_done() && r.image().same_pixels(img),
        Some(FilterKind::Grayscale) => r.is_done() && is_grayscale_of(img, r.image()),
        Some(FilterKind::Invert) => r.is_done() && is_inverted(img, r.image()),
        Some(FilterKind::Contrast) => r.is_done() && is_contrasted(img, r.image()),
        Some(FilterKind::Blur) => r.is_done() && is_blurred(img, r.image()),
        Some(FilterKind::Sharpen) => r.is_done() && is_sharpened(img, r.image()),
        Some(FilterKind::Edges) => !r.is_done() && is_grayscale_of(img, r.image()),
        Some(FilterKind::Sepia) => r.is_done() && is_sepia_of(img, r.image()),
        Some(FilterKind::ResizeHalf) => r.is_done() && is_resized_half(img, r.image()),
        Some(FilterKind::Rotate90Cw) => r.is_done() && is_rotated_cw(img, r.image()),
        Some(FilterKind::Rotate90Ccw) => r.is_done() && is_rotated_ccw(img, r.image()),
    }
}

/// Runs the requested transform over a decoded raster.
pub fn apply_pixels(img: &Image, filter: &String) -> (r: Transformed)
    requires
        img.wf(),
        img.width <= usize::MAX - 4,
        img.height <= usize::MAX - 4,
    ensures
        r.image().wf(),
        transform_ok(*img, filter@, r),
{
    match parse_filter(filter) {
        None => Transformed::Done(identity_copy(img)),
        Some(FilterKind::Grayscale) => Transformed::Done(grayscale(img)),
        Some(FilterKind::Invert) => Transformed::Done(invert(img)),
        Some(FilterKind::Contrast) => Transformed::Done(contrast(img)),
        Some(FilterKind::Blur) => Transformed::Done(blur(img)),
        Some(FilterKind::Sharpen) => Transformed::Done(sharpen(img)),
        Some(FilterKind::Edges) => Transformed::EdgeInput(grayscale(img)),
        Some(FilterKind::Sepia) => Transformed::Done(sepia(img)),
        Some(FilterKind::ResizeHalf) => Transformed::Done(resize_half(img)),
        Some(FilterKind::Rotate90Cw) => Transformed::Done(rotate_cw(img)),
        Some(FilterKind::Rotate90Ccw) => Transformed::Done(rotate_ccw(img)),
    }
}

/// Decides where the pixels for a request come from.  A path that was
/// itself produced by this same filter is chained on directly (`None`);
/// any other source first has its pristine original looked for, under
/// the name the processed-file mark was cut from.  The caller decodes
/// that path and falls back to the raster it already has when the decode
/// fails.
pub fn plan_recovery(input_path: &String, filter: &String) -> (r: Option<String>)
    ensures
        match r {
            None => contains_sub(input_path@, reapply_marker(filter@)),
            Some(orig) => !contains_sub(input_path@, reapply_marker(filter@)) && orig@
                == spec_strip(input_path@),
        },
{
    if is_reapplying(input_path.as_str(), filter.as_str()) {
        None
    } else {
        Some(strip_processed(input_path.as_str()))
    }
}

/// What one whole application comes to.
pub enum ApplyOutcome {
    /// The request failed before any pixel work; the path carried is
    /// the input path, handed back unchanged.
    Failed(String),
    /// The raster to encode — or the luma still owed to the edge
    /// detector — and the path to write it to.
    Write(Transformed, String),
}

/// One whole application, given what decoding returned: `primary` is
/// the raster decoded from the input path (`None` when that failed or
/// the image was empty), `recovered` the raster decoded from the path
/// `plan_recovery` named, when it named one and the decode succeeded.
/// A failed primary decode degrades to the input path unchanged;
/// otherwise the pixels are transformed and the output file named.
pub fn apply_decoded(
    input_path: String,
    filter: &String,
    primary: Option<Image>,
    recovered: Option<Image>,
    timestamp: u64,
) -> (r: ApplyOutcome)
    requires
        primary matches Some(img) ==> img.wf() && img.width <= usize::MAX - 4 && img.height
            <= usize::MAX - 4,
        recovered matches Some(img) ==> img.wf() && img.width <= usize::MAX - 4 && img.height
            <= usize::MAX - 4,
    ensures
        match r {
            ApplyOutcome::Failed(p) => primary.is_none() && p == input_path,
            ApplyOutcome::Write(t, out) => {
                &&& primary.is_some()
                &&& out@ == crate::paths::spec_output_path(input_path@, filter@, timestamp)
                &&& t.image().wf()
                &&& transform_ok(
                    if recovered.is_some() {
                        recovered.unwrap()
                    } else {
                        primary.unwrap()
                    },
                    filter@,
                    t,
                )
            },
        },
{
    match primary {
        None => ApplyOutcome::Failed(input_path),
        Some(img) => {
            let effective = match recovered {
                Some(orig) => orig,
                None => img,
            };
            let t = apply_pixels(&effective, filter);
            let out = crate::paths::output_path(input_path.as_str(), filter.as_str(), timestamp);
            ApplyOutcome::Write(t, out)
        },
    }
}

/// Settles what the caller reports: the output path when the write
/// succeeded, the input path, unchanged, when it failed.
pub fn finish_apply(input_path: String, out_path: String, write_ok: bool) -> (r: String)
    ensures
        write_ok ==> r == out_path,
        !write_ok ==> r == input_path,
{
    if write_ok {
        out_path
    } else {
        input_path
    }
}

} // verus!
