//! The metadata record: the sole domain entity, a plain value object of
//! eight fields, four of them optional with the empty string standing for
//! an absent EXIF tag.

use vstd::prelude::*;

verus! {

/// The metadata extracted from one image file.
///
/// `filename`, `size`, `created_time` and `modified_time` are always
/// populated; the four EXIF-derived fields are independently optional and
/// hold the empty string when the corresponding tag is absent.
#[derive(Debug, Clone)]
pub struct ImageInfo {
    /// The input path, stored verbatim.
    pub filename: String,
    /// Byte length of the file.
    pub size: u64,
    /// Filesystem creation timestamp, RFC 3339 with nanoseconds, UTC.
    pub created_time: String,
    /// Filesystem modification timestamp, same format.
    pub modified_time: String,
    /// EXIF orientation description; empty if the tag is absent.
    pub orientation: String,
    /// EXIF original capture timestamp, as displayed; empty if absent.
    pub capture_time: String,
    /// EXIF camera model; empty if absent.
    pub camera_model: String,
    /// EXIF body serial number; empty if absent.
    pub camera_serial: String,
}

/// The mathematical value of an [`ImageInfo`]: its eight fields as
/// character sequences and an integer.
#[verifier::ext_equal]
pub struct RecordView {
    pub filename: Seq<char>,
    pub size: u64,
    pub created_time: Seq<char>,
    pub modified_time: Seq<char>,
    pub orientation: Seq<char>,
    pub capture_time: Seq<char>,
    pub camera_model: Seq<char>,
    pub camera_serial: Seq<char>,
}

impl View for ImageInfo {
    type V = RecordView;

    open spec fn view(&self) -> RecordView {
        RecordView {
            filename: self.filename@,
            size: self.size,
            created_time: self.created_time@,
            modified_time: self.modified_time@,
            orientation: self.orientation@,
            capture_time: self.capture_time@,
            camera_model: self.camera_model@,
            camera_serial: self.camera_serial@,
        }
    }
}

impl PartialEq for ImageInfo {
    fn eq(&self, other: &ImageInfo) -> (r: bool) {
        self.filename.eq(&other.filename) && self.size == other.size
            && self.created_time.eq(&other.created_time)
            && self.modified_time.eq(&other.modified_time)
            && self.orientation.eq(&other.orientation)
            && self.capture_time.eq(&other.capture_time)
            && self.camera_model.eq(&other.camera_model)
            && self.camera_serial.eq(&other.camera_serial)
    }
}

impl vstd::std_specs::cmp::PartialEqSpecImpl for ImageInfo {
    open spec fn obeys_eq_spec() -> bool {
        true
    }

    open spec fn eq_spec(&self, other: &ImageInfo) -> bool {
        self@ == other@
    }
}

/// Whether a field value stands for an absent EXIF tag.
pub fn is_empty(field: &str) -> (r: bool)
    ensures
        r == (field@.len() == 0),
{
    field.unicode_len() == 0
}

} // verus!
