//! A small image-filter engine: a fixed set of per-pixel and per-kernel
//! raster transforms, the deterministic naming protocol for the files the
//! processed images are written to, and the session record that decides
//! whether a new filter chains onto the previous result or restarts from
//! the original image.
//!
//! Decoding and encoding image files, the file dialog and the view are the
//! callers' business; the library works on decoded rasters and on plain
//! path strings.
#![verifier::loop_isolation(false)]

pub mod engine;
pub mod filter;
pub mod image;
pub mod kernel;
pub mod paths;
pub mod session;
pub mod geometry;
pub mod transform;
