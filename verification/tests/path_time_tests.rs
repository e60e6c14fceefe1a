use imagextractor::error::ImagextractorError;
use imagextractor::paths::{generate_output_file, has_image_extension};
use imagextractor::record::is_empty;
use imagextractor::timefmt::format_epoch_offset;
use chrono::{Datelike, Timelike};

#[test]
fn generate_json_filename() {
    let cases = vec![
        ("AB.jpeg", "AB.json"),
        ("AB.NEW.jpeg", "AB.NEW.json"),
        ("AB.jpg", "AB.json"),
        ("AB.JPEG", "AB.json"),
        ("AB.JPG", "AB.json"),
    ];
    for (filename, expected) in cases {
        assert_eq!(generate_output_file(filename).unwrap(), expected);
    }
}

#[test]
fn image_extension_check() {
    assert!(has_image_extension("AB.jpg"));
    assert!(has_image_extension("AB.JPEG"));
    assert!(has_image_extension("a/b/c.JpG"));
    assert!(!has_image_extension("AB.png"));
    assert!(!has_image_extension("ABjpg"));
    assert!(!has_image_extension(""));
}

#[test]
fn generate_output_file_without_dot_fails() {
    let r = generate_output_file("ABjpeg");
    assert!(matches!(r, Err(ImagextractorError::InvalidArgs(_))));
    assert!(generate_output_file("").is_err());
}

#[test]
fn datetime_parse() {
    let parsed: chrono::DateTime<chrono::Utc> =
        "2020-08-13T10:57:06.773358405Z".parse().unwrap();
    assert_eq!(
        (parsed.year(), parsed.month(), parsed.day()),
        (2020, 8, 13)
    );
    assert_eq!(
        (parsed.hour(), parsed.minute(), parsed.second(), parsed.nanosecond()),
        (10, 57, 6, 773358405)
    );
    // The parsed instant formats back to the identical text.
    assert_eq!(
        format_epoch_offset(
            true,
            parsed.timestamp() as u64,
            parsed.timestamp_subsec_nanos()
        )
        .unwrap(),
        "2020-08-13T10:57:06.773358405Z"
    );
}

#[test]
fn pre_epoch_timestamps_normalized() {
    assert_eq!(
        format_epoch_offset(false, 0, 500_000_000).unwrap(),
        "1969-12-31T23:59:59.500000000Z"
    );
    assert_eq!(
        format_epoch_offset(false, 1, 0).unwrap(),
        "1969-12-31T23:59:59.000000000Z"
    );
    assert_eq!(
        format_epoch_offset(true, 0, 0).unwrap(),
        "1970-01-01T00:00:00.000000000Z"
    );
}

#[test]
fn empty_field_predicate() {
    assert!(is_empty(""));
    assert!(!is_empty(" "));
    assert!(!is_empty("025021000537"));
}

#[test]
fn error_messages_name_the_failure() {
    let e = ImagextractorError::InvalidArgs("bad path".to_string());
    assert_eq!(e.message(), "Invalid arguments: bad path");
    assert_eq!(ImagextractorError::Other.message(), "Other Error");
    let p = ImagextractorError::ParseError("broken".to_string());
    assert_eq!(p.message(), "Parse error: broken");
}
