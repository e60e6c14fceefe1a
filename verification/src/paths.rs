//! Derivation of the sidecar output path: everything from the last `.` of
//! the input path is replaced by the lowercase extension `.json`.

use vstd::prelude::*;
use crate::chars::char_code;
use crate::error::ImagextractorError;

verus! {

/// The scalar value of `c` with an ASCII capital letter folded to its
/// small form; any other character keeps its own value.
pub open spec fn lower_code(c: char) -> int {
    if 65 <= char_code(c) && char_code(c) <= 90 {
        char_code(c) + 32
    } else {
        char_code(c)
    }
}

/// Whether `s` ends in `suf`, ASCII letter case ignored on the side of
/// `s` (the suffixes of interest are lowercase).
pub open spec fn suffix_matches_ci(s: Seq<char>, suf: Seq<char>) -> bool {
    s.len() >= suf.len() && forall|k: int|
        0 <= k < suf.len() ==> lower_code(s[s.len() - suf.len() + k]) == char_code(#[trigger] suf[k])
}

pub open spec fn jpg_suffix() -> Seq<char> {
    seq!['.', 'j', 'p', 'g']
}

pub open spec fn jpeg_suffix() -> Seq<char> {
    seq!['.', 'j', 'p', 'e', 'g']
}

fn lower_code_exec(c: char) -> (n: u32)
    ensures
        n as int == lower_code(c),
{
    proof {
        assert(0 <= c as int <= 0x10FFFF);
    }
    let m = c as u32;
    if 65 <= m && m <= 90 {
        m + 32
    } else {
        m
    }
}

fn ends_with_ci(path: &str, suf: &str) -> (r: bool)
    ensures
        r == suffix_matches_ci(path@, suf@),
{
    let n = path.unicode_len();
    let m = suf.unicode_len();
    if n < m {
        return false;
    }
    let mut k: usize = 0;
    while k < m
        invariant
            n == path@.len(),
            m == suf@.len(),
            m <= n,
            k <= m,
            forall|j: int|
                0 <= j < k ==> lower_code(path@[n - m + j]) == char_code(#[trigger] suf@[j]),
        decreases m - k,
    {
        let a = lower_code_exec(path.get_char(n - m + k));
        let b = suf.get_char(k);
        proof {
            assert(0 <= b as int <= 0x10FFFF);
        }
        if a != b as u32 {
            proof {
                assert(lower_code(path@[n - m + k]) != char_code(suf@[k as int]));
            }
            return false;
        }
        k = k + 1;
    }
    true
}

/// Whether the path names a JPEG image by its extension: it ends in
/// `.jpg` or `.jpeg`, letter case ignored.
pub fn has_image_extension(path: &str) -> (r: bool)
    ensures
        r == (suffix_matches_ci(path@, jpg_suffix()) || suffix_matches_ci(path@, jpeg_suffix())),
{
    proof {
        reveal_strlit(".jpg");
        reveal_strlit(".jpeg");
        assert(".jpg"@ =~= jpg_suffix());
        assert(".jpeg"@ =~= jpeg_suffix());
    }
    ends_with_ci(path, ".jpg") || ends_with_ci(path, ".jpeg")
}

/// The suffix appended to the stem of the input path.
pub open spec fn json_suffix() -> Seq<char> {
    seq!['.', 'j', 's', 'o', 'n']
}

/// Whether `s` holds a `.` anywhere.
pub open spec fn has_dot(s: Seq<char>) -> bool {
    exists|i: int| 0 <= i < s.len() && s[i] == '.'
}

/// Whether `i` is the index of the rightmost `.` of `s`.
pub open spec fn is_last_dot(s: Seq<char>, i: int) -> bool {
    &&& 0 <= i < s.len()
    &&& s[i] == '.'
    &&& forall|j: int| i < j < s.len() ==> s[j] != '.'
}

/// Derives the output file name from the input image file name: the text up
/// to the rightmost `.` is kept and `.json` is appended. An input without
/// any `.` is rejected, since upstream validation owes the core an image
/// extension.
pub fn generate_output_file(path: &str) -> (r: Result<String, ImagextractorError>)
    ensures
        r is Ok <==> has_dot(path@),
        r matches Ok(out) ==> exists|i: int|
            #[trigger] is_last_dot(path@, i) && out@ == path@.subrange(0, i) + json_suffix(),
{
    let n = path.unicode_len();
    let mut i: usize = n;
    while i > 0
        invariant
            n == path@.len(),
            i <= n,
            forall|j: int| i <= j < n ==> path@[j] != '.',
        decreases i,
    {
        i = i - 1;
        if path.get_char(i) == '.' {
            let stem = path.substring_char(0, i);
            let mut out = String::from_str(stem);
            out.append(".json");
            proof {
                reveal_strlit(".json");
                assert(is_last_dot(path@, i as int));
                assert(".json"@ =~= json_suffix());
                assert(out@ == path@.subrange(0, i as int) + json_suffix());
            }
            return Ok(out);
        }
    }
    proof {
        assert(!has_dot(path@));
    }
    Err(ImagextractorError::InvalidArgs(String::from_str(
        "the input path has no extension separator",
    )))
}

} // verus!
