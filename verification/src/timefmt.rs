//! Filesystem timestamps: normalization of an epoch offset to chrono's
//! seconds-and-nanoseconds convention, and rendering as RFC 3339 text with
//! nanosecond precision in UTC.

use vstd::prelude::*;
use crate::error::ImagextractorError;

verus! {

/// The RFC 3339 text, in UTC with exactly nine fractional digits and a
/// literal `Z` suffix, of the instant `sec` seconds plus `nsec` nanoseconds
/// after the epoch. Computing it is chrono's work; the text depends on the
/// two arguments alone.
pub uninterp spec fn rfc3339_utc_nanos(sec: int, nsec: int) -> Seq<char>;

/// Whether chrono can represent the instant `sec` seconds plus `nsec`
/// nanoseconds after the epoch. Deciding it is chrono's work; the outcome
/// depends on the two arguments alone.
pub uninterp spec fn rfc3339_representable(sec: int, nsec: int) -> bool;

/// Relies on chrono: `TimeZone::timestamp_opt` on `Utc` gives the instant
/// `sec` seconds plus `nsec` nanoseconds after the epoch — `None` exactly
/// on an out-of-range number of seconds or an invalid nanosecond, a single
/// result otherwise, decided by the two arguments alone — and
/// `DateTime::to_rfc3339_opts` with `SecondsFormat::Nanos` and `use_z`
/// renders it as RFC 3339 text with nine fractional digits and `Z`. The
/// text too is a function of the two arguments alone.
#[verifier::external_body]
fn chrono_format_rfc3339(sec: i64, nsec: u32) -> (r: Option<String>)
    ensures
        r is Some <==> rfc3339_representable(sec as int, nsec as int),
        r matches Some(s) ==> s@ == rfc3339_utc_nanos(sec as int, nsec as int),
{
    match chrono::TimeZone::timestamp_opt(&chrono::Utc, sec, nsec) {
        chrono::LocalResult::Single(dt) => Some(
            dt.to_rfc3339_opts(chrono::SecondsFormat::Nanos, true),
        ),
        _ => None,
    }
}

/// The signed seconds and carried nanoseconds of an epoch offset: a
/// duration lying `sec` seconds plus `nsec` nanoseconds after the epoch
/// (or before it, when `after` is false), with the nanosecond part of a
/// pre-epoch instant re-normalized into `[0, 1e9)` instead of left
/// negative.
pub open spec fn spec_normalized(after: bool, sec: u64, nsec: u32) -> (int, int) {
    if after {
        (sec as int, nsec as int)
    } else if nsec == 0 {
        (-(sec as int), 0int)
    } else {
        (-(sec as int) - 1, 1_000_000_000 - nsec as int)
    }
}

/// Normalizes an epoch offset to chrono's convention. The result denotes
/// the same instant: its total in nanoseconds equals the signed total of
/// the input, and its nanosecond part is always in `[0, 1e9)`.
pub fn normalize_epoch_offset(after: bool, sec: u64, nsec: u32) -> (r: (i64, u32))
    requires
        sec <= i64::MAX as u64,
        nsec < 1_000_000_000,
    ensures
        (r.0 as int, r.1 as int) == spec_normalized(after, sec, nsec),
        r.1 < 1_000_000_000,
        r.0 as int * 1_000_000_000 + r.1 as int == (if after {
            sec as int * 1_000_000_000 + nsec as int
        } else {
            -(sec as int * 1_000_000_000 + nsec as int)
        }),
{
    if after {
        (sec as i64, nsec)
    } else if nsec == 0 {
        (-(sec as i64), 0)
    } else {
        (-(sec as i64) - 1, 1_000_000_000 - nsec)
    }
}

/// Renders an epoch offset (a duration after or before the epoch) as RFC
/// 3339 UTC text with nanosecond precision, normalizing pre-epoch instants
/// first. Succeeds exactly when chrono can represent the normalized
/// instant.
pub fn format_epoch_offset(after: bool, sec: u64, nsec: u32) -> (r: Result<
    String,
    ImagextractorError,
>)
    requires
        sec <= i64::MAX as u64,
        nsec < 1_000_000_000,
    ensures
        r is Ok <==> rfc3339_representable(
            spec_normalized(after, sec, nsec).0,
            spec_normalized(after, sec, nsec).1,
        ),
        r matches Ok(s) ==> s@ == rfc3339_utc_nanos(
            spec_normalized(after, sec, nsec).0,
            spec_normalized(after, sec, nsec).1,
        ),
{
    let (s, n) = normalize_epoch_offset(after, sec, nsec);
    match chrono_format_rfc3339(s, n) {
        Some(text) => Ok(text),
        None => Err(
            ImagextractorError::ParseError(
                String::from_str("the timestamp lies outside the representable range"),
            ),
        ),
    }
}

} // verus!
