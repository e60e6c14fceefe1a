use imagextractor::codec::{deserialize, serialize};
use imagextractor::error::ImagextractorError;
use imagextractor::exifdata::extract_img_info;

fn push_u16(v: &mut Vec<u8>, x: u16) {
    v.push((x & 0xff) as u8);
    v.push((x >> 8) as u8);
}

fn push_u32(v: &mut Vec<u8>, x: u32) {
    v.push((x & 0xff) as u8);
    v.push(((x >> 8) & 0xff) as u8);
    v.push(((x >> 16) & 0xff) as u8);
    v.push(((x >> 24) & 0xff) as u8);
}

fn push_entry(v: &mut Vec<u8>, tag: u16, typ: u16, count: u32, value: u32) {
    push_u16(v, tag);
    push_u16(v, typ);
    push_u32(v, count);
    push_u32(v, value);
}

/// A minimal little-endian TIFF byte stream with the primary image's
/// orientation and model in its first directory and the original capture
/// time (and optionally the body serial number) in the Exif sub-directory.
fn build_exif_tiff(with_serial: bool) -> Vec<u8> {
    const ASCII: u16 = 2;
    const SHORT: u16 = 3;
    const LONG: u16 = 4;
    let model = b"Canon EOS 5D Mark IV\0";
    let capture = b"2019:07:26 13:25:33\0";
    let serial = b"025021000537\0";

    let model_off: u32 = 8 + 2 + 3 * 12 + 4; // after IFD0
    let sub_off: u32 = model_off + model.len() as u32 + 1; // padded to even
    let sub_count: u32 = if with_serial { 2 } else { 1 };
    let capture_off: u32 = sub_off + 2 + sub_count * 12 + 4;
    let serial_off: u32 = capture_off + capture.len() as u32;

    let mut v: Vec<u8> = Vec::new();
    v.push(b'I');
    v.push(b'I');
    push_u16(&mut v, 42);
    push_u32(&mut v, 8);
    // IFD0: model, orientation, pointer to the Exif sub-directory
    push_u16(&mut v, 3);
    push_entry(&mut v, 0x0110, ASCII, model.len() as u32, model_off);
    push_entry(&mut v, 0x0112, SHORT, 1, 1);
    push_entry(&mut v, 0x8769, LONG, 1, sub_off);
    push_u32(&mut v, 0);
    v.extend_from_slice(model);
    v.push(0); // pad to an even offset
    // Exif sub-directory: capture time, optionally the serial number
    push_u16(&mut v, sub_count as u16);
    push_entry(&mut v, 0x9003, ASCII, capture.len() as u32, capture_off);
    if with_serial {
        push_entry(&mut v, 0xa431, ASCII, serial.len() as u32, serial_off);
    }
    push_u32(&mut v, 0);
    v.extend_from_slice(capture);
    if with_serial {
        v.extend_from_slice(serial);
    }
    v
}

#[test]
fn extract_image_info() {
    let expected_img_info = r#"{
            "filename": "images/JAM19896.jpg",
            "size": 953458,
            "created_time": "2020-08-25T02:38:14.000000000Z",
            "modified_time": "2020-08-14T00:04:05.000000000Z",
            "orientation": "row 0 at top and column 0 at left",
            "capture_time": "2019-07-26 13:25:33",
            "camera_model": "Canon EOS 5D Mark IV",
            "camera_serial": "025021000537"
        }"#;

    let expected_img = deserialize(expected_img_info).unwrap();
    let bytes = build_exif_tiff(true);
    let image_info = extract_img_info(
        "images/JAM19896.jpg",
        953458,
        "2020-08-25T02:38:14.000000000Z".to_string(),
        "2020-08-14T00:04:05.000000000Z".to_string(),
        &bytes,
    )
    .unwrap();
    assert_eq!(expected_img, image_info);

    // The canonical text of the extracted record denotes the same JSON
    // value as the expected document, whatever the key order.
    let ours: serde_json::Value = serde_json::from_str(&serialize(&image_info)).unwrap();
    let reference: serde_json::Value = serde_json::from_str(expected_img_info).unwrap();
    assert_eq!(ours, reference);
}

#[test]
fn absent_serial_tag_gives_empty_field() {
    let bytes = build_exif_tiff(false);
    let info = extract_img_info(
        "x.jpg",
        1,
        "c".to_string(),
        "m".to_string(),
        &bytes,
    )
    .unwrap();
    assert_eq!(info.camera_serial, "");
    assert_eq!(info.orientation, "row 0 at top and column 0 at left");
    assert_eq!(info.capture_time, "2019-07-26 13:25:33");
    assert_eq!(info.camera_model, "Canon EOS 5D Mark IV");
}

#[test]
fn malformed_container_rejected() {
    let junk: Vec<u8> = b"this is not an image".to_vec();
    let r = extract_img_info("x.jpg", 1, "c".to_string(), "m".to_string(), &junk);
    assert!(matches!(r, Err(ImagextractorError::ParseError(_))));
}
