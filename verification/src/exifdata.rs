//! Extraction of the EXIF-derived fields: reading the metadata container
//! embedded in an image byte stream and mapping the four tags of interest
//! to trimmed string fields of the record.

use vstd::prelude::*;
use crate::error::ImagextractorError;
use crate::record::ImageInfo;
use crate::chars::str_to_chars;

verus! {

#[verifier::external_type_specification]
#[verifier::external_body]
pub struct ExExif(exif::Exif);

/// Whether the bytes hold an image container with a readable EXIF
/// attribute block. Deciding it is the exif crate's work; the outcome
/// depends on the bytes alone.
pub uninterp spec fn exif_ok(b: Seq<u8>) -> bool;

/// The displayed text of every EXIF field of the primary image in the
/// container bytes, keyed by tag number. The rendering is the exif crate's
/// work; it depends on the bytes alone.
pub uninterp spec fn exif_displays(b: Seq<u8>) -> Map<int, Seq<char>>;

/// What a parsed `exif::Exif` value holds: the displayed text of its
/// primary-image fields, keyed by tag number.
pub uninterp spec fn exif_view(e: exif::Exif) -> Map<int, Seq<char>>;

/// Relies on `exif::Reader::read_from_container`: it locates and decodes
/// the EXIF attribute block of an image byte stream, succeeding or failing
/// on the bytes alone, and the parsed value holds the fields of those
/// bytes.
#[verifier::external_body]
fn read_container(bytes: &Vec<u8>) -> (r: Result<exif::Exif, ImagextractorError>)
    ensures
        r is Ok <==> exif_ok(bytes@),
        r matches Ok(e) ==> exif_view(e) == exif_displays(bytes@),
{
    let mut cur = std::io::Cursor::new(bytes.as_slice());
    exif::Reader::new().read_from_container(&mut cur).map_err(
        |e| ImagextractorError::ParseError(e.to_string()),
    )
}

/// The four EXIF tags the reader extracts, one per record field.
#[derive(Clone, Copy, Debug)]
pub enum ExifTagKind {
    Orientation,
    Model,
    DateTimeOriginal,
    BodySerialNumber,
}

impl ExifTagKind {
    /// The tag's number in the EXIF tag space.
    pub open spec fn spec_code(self) -> int {
        match self {
            ExifTagKind::Orientation => 0x112,
            ExifTagKind::Model => 0x110,
            ExifTagKind::DateTimeOriginal => 0x9003,
            ExifTagKind::BodySerialNumber => 0xa431,
        }
    }
}

/// Relies on `exif::Exif::get_field` with the primary image number and on
/// `exif::Field::display_value`: the field of the given tag, rendered as
/// its display text, or nothing when the primary image has no such tag.
#[verifier::external_body]
fn tag_display(e: &exif::Exif, tag: ExifTagKind) -> (r: Option<String>)
    ensures
        r matches Some(s) ==> exif_view(*e).contains_key(tag.spec_code()) && s@ == exif_view(
            *e,
        )[tag.spec_code()],
        r is None ==> !exif_view(*e).contains_key(tag.spec_code()),
{
    let t = match tag {
        ExifTagKind::Orientation => exif::Tag::Orientation,
        ExifTagKind::Model => exif::Tag::Model,
        ExifTagKind::DateTimeOriginal => exif::Tag::DateTimeOriginal,
        ExifTagKind::BodySerialNumber => exif::Tag::BodySerialNumber,
    };
    e.get_field(t, exif::In::PRIMARY).map(|f| f.display_value().to_string())
}

/// A character trimmed off the ends of a displayed tag value: a space or a
/// double quote.
pub open spec fn is_trim_char(c: char) -> bool {
    c == ' ' || c == '"'
}

/// `s` without its leading spaces and double quotes.
pub open spec fn spec_trim_start(s: Seq<char>) -> Seq<char>
    decreases s.len(),
{
    if s.len() > 0 && is_trim_char(s[0]) {
        spec_trim_start(s.subrange(1, s.len() as int))
    } else {
        s
    }
}

/// `s` without its trailing spaces and double quotes.
pub open spec fn spec_trim_end(s: Seq<char>) -> Seq<char>
    decreases s.len(),
{
    if s.len() > 0 && is_trim_char(s[s.len() - 1]) {
        spec_trim_end(s.subrange(0, s.len() - 1))
    } else {
        s
    }
}

/// `s` with surrounding spaces and double quotes trimmed off, and nothing
/// else changed.
pub open spec fn spec_trim(s: Seq<char>) -> Seq<char> {
    spec_trim_end(spec_trim_start(s))
}

fn is_trim_char_exec(c: char) -> (r: bool)
    ensures
        r == is_trim_char(c),
{
    c == ' ' || c == '"'
}

/// Trims leading and trailing spaces and double quotes off a displayed
/// value.
fn trim_value(s: &str) -> (r: String)
    ensures
        r@ == spec_trim(s@),
{
    let n = s.unicode_len();
    proof {
        assert(s@.subrange(0, n as int) =~= s@);
    }
    let mut lo: usize = 0;
    loop
        invariant
            lo <= n,
            n == s@.len(),
            spec_trim_start(s@) == spec_trim_start(s@.subrange(lo as int, n as int)),
        ensures
            lo <= n,
            spec_trim_start(s@) == s@.subrange(lo as int, n as int),
        decreases n - lo,
    {
        if lo == n {
            break;
        }
        if !is_trim_char_exec(s.get_char(lo)) {
            proof {
                assert(s@.subrange(lo as int, n as int)[0] == s@[lo as int]);
            }
            break;
        }
        proof {
            let t = s@.subrange(lo as int, n as int);
            assert(t[0] == s@[lo as int]);
            assert(t.subrange(1, t.len() as int) =~= s@.subrange(lo + 1 as int, n as int));
        }
        lo = lo + 1;
    }
    let ghost start_trimmed = s@.subrange(lo as int, n as int);
    let mut hi: usize = n;
    loop
        invariant
            lo <= hi <= n,
            n == s@.len(),
            start_trimmed == s@.subrange(lo as int, n as int),
            spec_trim_end(start_trimmed) == spec_trim_end(s@.subrange(lo as int, hi as int)),
        ensures
            lo <= hi <= n,
            spec_trim_end(start_trimmed) == s@.subrange(lo as int, hi as int),
        decreases hi,
    {
        if hi == lo {
            break;
        }
        if !is_trim_char_exec(s.get_char(hi - 1)) {
            proof {
                let t = s@.subrange(lo as int, hi as int);
                assert(t[t.len() - 1] == s@[hi - 1 as int]);
            }
            break;
        }
        proof {
            let t = s@.subrange(lo as int, hi as int);
            assert(t[t.len() - 1] == s@[hi - 1 as int]);
            assert(t.subrange(0, t.len() - 1) =~= s@.subrange(lo as int, hi - 1 as int));
        }
        hi = hi - 1;
    }
    let out = s.substring_char(lo, hi);
    String::from_str(out)
}

/// The value of an extracted optional field: the displayed text of the tag
/// in the container bytes, trimmed of surrounding spaces and double
/// quotes, or the empty string when the tag is absent.
pub open spec fn spec_field_of(b: Seq<u8>, tag_code: int) -> Seq<char> {
    if exif_displays(b).contains_key(tag_code) {
        spec_trim(exif_displays(b)[tag_code])
    } else {
        Seq::empty()
    }
}

/// One extracted field: the trimmed display text of the tag, or empty when
/// the tag is absent from the parsed container.
fn field_string(e: &exif::Exif, tag: ExifTagKind) -> (r: String)
    ensures
        r@ == (if exif_view(*e).contains_key(tag.spec_code()) {
            spec_trim(exif_view(*e)[tag.spec_code()])
        } else {
            Seq::<char>::empty()
        }),
{
    match tag_display(e, tag) {
        Some(s) => trim_value(s.as_str()),
        None => String::new(),
    }
}

/// Builds the metadata record of one image from its path, its filesystem
/// size and timestamp texts, and its raw bytes. The four tag-derived
/// fields hold the trimmed display text of their tag, or the empty string
/// where the tag is absent; the call fails exactly when the bytes hold no
/// readable EXIF container.
pub fn extract_img_info(
    path: &str,
    size: u64,
    created_time: String,
    modified_time: String,
    bytes: &Vec<u8>,
) -> (r: Result<ImageInfo, ImagextractorError>)
    ensures
        r is Ok <==> exif_ok(bytes@),
        r matches Ok(info) ==> {
            &&& info@.filename == path@
            &&& info@.size == size
            &&& info@.created_time == created_time@
            &&& info@.modified_time == modified_time@
            &&& info@.orientation == spec_field_of(bytes@, ExifTagKind::Orientation.spec_code())
            &&& info@.capture_time == spec_field_of(
                bytes@,
                ExifTagKind::DateTimeOriginal.spec_code(),
            )
            &&& info@.camera_model == spec_field_of(bytes@, ExifTagKind::Model.spec_code())
            &&& info@.camera_serial == spec_field_of(
                bytes@,
                ExifTagKind::BodySerialNumber.spec_code(),
            )
        },
{
    let exif = match read_container(bytes) {
        Ok(e) => e,
        Err(err) => {
            return Err(err);
        },
    };
    let orientation = field_string(&exif, ExifTagKind::Orientation);
    let capture_time = field_string(&exif, ExifTagKind::DateTimeOriginal);
    let camera_model = field_string(&exif, ExifTagKind::Model);
    let camera_serial = field_string(&exif, ExifTagKind::BodySerialNumber);
    Ok(
        ImageInfo {
            filename: path.to_owned(),
            size,
            created_time,
            modified_time,
            orientation,
            capture_time,
            camera_model,
            camera_serial,
        },
    )
}

} // verus!
