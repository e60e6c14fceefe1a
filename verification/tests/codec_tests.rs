use imagextractor::codec::{deserialize, serialize};
use imagextractor::record::ImageInfo;

fn sample_record() -> ImageInfo {
    ImageInfo {
        filename: "CAM18839.jpg".to_string(),
        size: 1164980,
        created_time: "2020-08-13T10:57:06.773358405Z".to_string(),
        modified_time: "2020-08-13T10:57:06.773358405Z".to_string(),
        orientation: "1".to_string(),
        capture_time: "2020-08-09T12:58:32".to_string(),
        camera_model: "EOS 5D Mark IV".to_string(),
        camera_serial: "025021000535".to_string(),
    }
}

#[test]
fn image_serialization() {
    let expect_img = r#"{
  "filename": "CAM18839.jpg",
  "size": 1164980,
  "created_time": "2020-08-13T10:57:06.773358405Z",
  "modified_time": "2020-08-13T10:57:06.773358405Z",
  "orientation": "1",
  "capture_time": "2020-08-09T12:58:32",
  "camera_model": "EOS 5D Mark IV",
  "camera_serial": "025021000535"
}"#;

    let img = sample_record();

    let serialized_img = serialize(&img);
    assert_eq!(serialized_img, expect_img);

    let parsed_img: ImageInfo = deserialize(expect_img).unwrap();
    assert_eq!(parsed_img, img.clone());
}

#[test]
fn round_trip_all_fields() {
    let img = ImageInfo {
        filename: "a \"quoted\" name\\with back\nslash.jpg".to_string(),
        size: u64::MAX,
        created_time: "2020-08-25T02:38:14.000000000Z".to_string(),
        modified_time: "tab\there".to_string(),
        orientation: "row 0 at top".to_string(),
        capture_time: "".to_string(),
        camera_model: "caf\u{e9} \u{1}control".to_string(),
        camera_serial: "025021000537".to_string(),
    };
    let text = serialize(&img);
    let back = deserialize(&text).unwrap();
    assert_eq!(back, img);
}

#[test]
fn round_trip_empty_optionals() {
    let img = ImageInfo {
        filename: "x.jpg".to_string(),
        size: 0,
        created_time: "c".to_string(),
        modified_time: "m".to_string(),
        orientation: String::new(),
        capture_time: String::new(),
        camera_model: String::new(),
        camera_serial: String::new(),
    };
    let text = serialize(&img);
    let back = deserialize(&text).unwrap();
    assert_eq!(back, img);
}

#[test]
fn orientation_omitted_on_empty() {
    let mut img = sample_record();
    img.orientation = String::new();
    let text = serialize(&img);
    assert!(!text.contains("\"orientation\""));

    let lacking = r#"{
  "filename": "CAM18839.jpg",
  "size": 1164980,
  "created_time": "c",
  "modified_time": "m",
  "camera_model": "EOS 5D Mark IV"
}"#;
    let parsed = deserialize(lacking).unwrap();
    assert_eq!(parsed.orientation, "");
    assert_eq!(parsed.capture_time, "");
    assert_eq!(parsed.camera_serial, "");
    assert_eq!(parsed.camera_model, "EOS 5D Mark IV");
}

#[test]
fn deserialize_any_key_order() {
    let reordered = r#"  {
        "camera_serial": "025021000535",
        "size":    1164980,
        "modified_time": "2020-08-13T10:57:06.773358405Z",
        "filename": "CAM18839.jpg",
        "capture_time": "2020-08-09T12:58:32",
        "orientation": "1",
        "camera_model": "EOS 5D Mark IV",
        "created_time": "2020-08-13T10:57:06.773358405Z"
    }  "#;
    let parsed = deserialize(reordered).unwrap();
    assert_eq!(parsed, sample_record());
}

#[test]
fn deserialize_missing_mandatory_rejected() {
    let missing_size = r#"{
  "filename": "CAM18839.jpg",
  "created_time": "c",
  "modified_time": "m"
}"#;
    assert!(deserialize(missing_size).is_err());
    assert!(deserialize("{}").is_err());
}

#[test]
fn deserialize_malformed_rejected() {
    assert!(deserialize("").is_err());
    assert!(deserialize("42").is_err());
    assert!(deserialize("{\"filename\": \"a\",}").is_err());
    // duplicate key
    assert!(
        deserialize(
            "{\"filename\": \"a\", \"filename\": \"b\", \"size\": 1, \"created_time\": \"c\", \"modified_time\": \"m\"}",
        )
        .is_err()
    );
    // unknown key
    assert!(
        deserialize(
            "{\"filename\": \"a\", \"size\": 1, \"created_time\": \"c\", \"modified_time\": \"m\", \"extra\": 1}",
        )
        .is_err()
    );
    // wrong type for size
    assert!(
        deserialize(
            "{\"filename\": \"a\", \"size\": \"1\", \"created_time\": \"c\", \"modified_time\": \"m\"}",
        )
        .is_err()
    );
    // trailing text
    assert!(
        deserialize(
            "{\"filename\": \"a\", \"size\": 1, \"created_time\": \"c\", \"modified_time\": \"m\"} x",
        )
        .is_err()
    );
}

#[test]
fn deserialize_number_edges() {
    let ok = "{\"filename\": \"a\", \"size\": 18446744073709551615, \"created_time\": \"c\", \"modified_time\": \"m\"}";
    assert_eq!(deserialize(ok).unwrap().size, u64::MAX);
    let too_big = "{\"filename\": \"a\", \"size\": 18446744073709551616, \"created_time\": \"c\", \"modified_time\": \"m\"}";
    assert!(deserialize(too_big).is_err());
    let leading_zero = "{\"filename\": \"a\", \"size\": 01, \"created_time\": \"c\", \"modified_time\": \"m\"}";
    assert!(deserialize(leading_zero).is_err());
}

#[test]
fn deserialize_unicode_escapes() {
    let text = "{\"filename\": \"\\u0041\\u00e9\\u0010\", \"size\": 1, \"created_time\": \"\\n\", \"modified_time\": \"m\"}";
    let parsed = deserialize(text).unwrap();
    assert_eq!(parsed.filename, "A\u{e9}\u{10}");
    assert_eq!(parsed.created_time, "\n");
    // a lone surrogate code unit is rejected
    let bad = "{\"filename\": \"\\ud800\", \"size\": 1, \"created_time\": \"c\", \"modified_time\": \"m\"}";
    assert!(deserialize(bad).is_err());
}

#[test]
fn deserialize_surrogate_pairs() {
    // a high-low pair denotes one supplementary character
    let pair = "{\"filename\": \"\\ud83d\\ude00 x\", \"size\": 1, \"created_time\": \"c\", \"modified_time\": \"m\"}";
    let parsed = deserialize(pair).unwrap();
    assert_eq!(parsed.filename, "\u{1f600} x");
    // the decoded record round-trips through the canonical text
    let again = deserialize(&serialize(&parsed)).unwrap();
    assert_eq!(again, parsed);
    // two high halves, a low half alone, and a truncated pair are rejected
    let two_high = "{\"filename\": \"\\ud83d\\ud83d\", \"size\": 1, \"created_time\": \"c\", \"modified_time\": \"m\"}";
    assert!(deserialize(two_high).is_err());
    let low_alone = "{\"filename\": \"\\ude00\", \"size\": 1, \"created_time\": \"c\", \"modified_time\": \"m\"}";
    assert!(deserialize(low_alone).is_err());
    let truncated = "{\"filename\": \"\\ud83d\\ud\", \"size\": 1, \"created_time\": \"c\", \"modified_time\": \"m\"}";
    assert!(deserialize(truncated).is_err());
}

#[test]
fn serialized_text_is_valid_json() {
    let img = sample_record();
    let ours: serde_json::Value = serde_json::from_str(&serialize(&img)).unwrap();
    let reference: serde_json::Value = serde_json::from_str(
        r#"{"size": 1164980, "filename": "CAM18839.jpg",
            "created_time": "2020-08-13T10:57:06.773358405Z",
            "modified_time": "2020-08-13T10:57:06.773358405Z",
            "orientation": "1", "capture_time": "2020-08-09T12:58:32",
            "camera_model": "EOS 5D Mark IV", "camera_serial": "025021000535"}"#,
    )
    .unwrap();
    assert_eq!(ours, reference);
}
