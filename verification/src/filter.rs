//! The closed set of filter identifiers and how a request string is read.
//!
//! A request names a filter with a plain string; everything outside this
//! set is treated as "no transform" and the engine answers with an
//! identity copy of the source raster.

use vstd::prelude::*;

verus! {

/// One of the fixed pixel transforms the engine knows.
#[derive(Clone, Copy, PartialEq, Eq, Structural, Debug)]
pub enum FilterKind {
    Grayscale,
    Invert,
    Contrast,
    Blur,
    Sharpen,
    Edges,
    Sepia,
    ResizeHalf,
    Rotate90Cw,
    Rotate90Ccw,
}

/// Which filter a request string names, if any.  Identifiers are matched
/// exactly; anything else is no filter at all.
pub open spec fn spec_parse_filter(name: Seq<char>) -> Option<FilterKind> {
    if name == "grayscale"@ {
        Some(FilterKind::Grayscale)
    } else if name == "invert"@ {
        Some(FilterKind::Invert)
    } else if name == "contrast"@ {
        Some(FilterKind::Contrast)
    } else if name == "blur"@ {
        Some(FilterKind::Blur)
    } else if name == "sharpen"@ {
        Some(FilterKind::Sharpen)
    } else if name == "edges"@ {
        Some(FilterKind::Edges)
    } else if name == "sepia"@ {
        Some(FilterKind::Sepia)
    } else if name == "resize_half"@ {
        Some(FilterKind::ResizeHalf)
    } else if name == "rotate_90_cw"@ {
        Some(FilterKind::Rotate90Cw)
    } else if name == "rotate_90_ccw"@ {
        Some(FilterKind::Rotate90Ccw)
    } else {
        None
    }
}

/// Reads a filter identifier; `None` for anything outside the fixed set.
pub fn parse_filter(name: &String) -> (r: Option<FilterKind>)
    ensures
        r == spec_parse_filter(name@),
{
    if *name == String::from_str("grayscale") {
        Some(FilterKind::Grayscale)
    } else if *name == String::from_str("invert") {
        Some(FilterKind::Invert)
    } else if *name == String::from_str("contrast") {
        Some(FilterKind::Contrast)
    } else if *name == String::from_str("blur") {
        Some(FilterKind::Blur)
    } else if *name == String::from_str("sharpen") {
        Some(FilterKind::Sharpen)
    } else if *name == String::from_str("edges") {
        Some(FilterKind::Edges)
    } else if *name == String::from_str("sepia") {
        Some(FilterKind::Sepia)
    } else if *name == String::from_str("resize_half") {
        Some(FilterKind::ResizeHalf)
    } else if *name == String::from_str("rotate_90_cw") {
        Some(FilterKind::Rotate90Cw)
    } else if *name == String::from_str("rotate_90_ccw") {
        Some(FilterKind::Rotate90Ccw)
    } else {
        None
    }
}

} // verus!
