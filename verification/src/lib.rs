//! Extraction of image metadata records and their canonical JSON form.
//!
//! The library builds a [`record::ImageInfo`] from a file's attributes and
//! the EXIF container embedded in its bytes, serializes the record to a
//! stable pretty-printed JSON text, parses that text back, and derives the
//! sidecar output path from an input path.

use vstd::prelude::*;

pub mod chars;
pub mod codec;
pub mod error;
pub mod exifdata;
pub mod laws;
pub mod paths;
pub mod record;
pub mod timefmt;

verus! {

} // verus!
