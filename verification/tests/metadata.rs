use photoman::date::CalendarDate;
use photoman::error::ArrangeError;
use photoman::exifreader::{create_exif_reader, parse_capture_date, ExifData, ExifFields, RustReader};
use photoman::imageinfo::ImageInfo;

fn push_entry(out: &mut Vec<u8>, tag: u16, kind: u16, count: u32, value: u32) {
    out.extend_from_slice(&tag.to_le_bytes());
    out.extend_from_slice(&kind.to_le_bytes());
    out.extend_from_slice(&count.to_le_bytes());
    out.extend_from_slice(&value.to_le_bytes());
}

/// A little-endian TIFF structure with the camera model in the first
/// directory and the capture time in the Exif directory.
fn tiff(datetime: Option<&str>, model: Option<&str>) -> Vec<u8> {
    let entries = model.is_some() as u32 + datetime.is_some() as u32;
    let model_at = 8 + 2 + 12 * entries + 4;
    let model_len = model.map_or(0, |m| m.len() as u32 + 1);
    let exif_at = model_at + model_len;
    let datetime_at = exif_at + 2 + 12 + 4;
    let mut out = Vec::new();
    out.extend_from_slice(b"II*\0");
    out.extend_from_slice(&8u32.to_le_bytes());
    out.extend_from_slice(&(entries as u16).to_le_bytes());
    if model.is_some() {
        push_entry(&mut out, 0x0110, 2, model_len, model_at);
    }
    if datetime.is_some() {
        push_entry(&mut out, 0x8769, 4, 1, exif_at);
    }
    out.extend_from_slice(&0u32.to_le_bytes());
    if let Some(m) = model {
        out.extend_from_slice(m.as_bytes());
        out.push(0);
    }
    if let Some(d) = datetime {
        out.extend_from_slice(&1u16.to_le_bytes());
        push_entry(&mut out, 0x9003, 2, d.len() as u32 + 1, datetime_at);
        out.extend_from_slice(&0u32.to_le_bytes());
        out.extend_from_slice(d.as_bytes());
        out.push(0);
    }
    out
}

/// A JPEG stream that carries the given bytes as its Exif segment.
fn jpeg(exif: Option<Vec<u8>>) -> Vec<u8> {
    let mut out = vec![0xff, 0xd8];
    if let Some(body) = exif {
        out.extend_from_slice(&[0xff, 0xe1]);
        out.extend_from_slice(&((body.len() + 8) as u16).to_be_bytes());
        out.extend_from_slice(b"Exif\0\0");
        out.extend_from_slice(&body);
    }
    out.extend_from_slice(&[0xff, 0xd9]);
    out
}

/// The bytes of the sample images.
fn image(name: &str) -> Vec<u8> {
    match name {
        "test_data/images/01.jpg" => jpeg(Some(tiff(Some("2020:06:21 15:04:05"), Some("PENTAX K-1")))),
        "test_data/images/000000581894.jpg" => jpeg(Some(tiff(Some("2021:04:22 08:00:00"), None))),
        _ => unreachable!(),
    }
}

#[test]
fn read_from_jpeg() {
    let reader = RustReader {};
    let maybe_exif = reader.read(&image("test_data/images/01.jpg"));
    assert!(maybe_exif.is_ok());
    let exif = maybe_exif.unwrap();
    assert_eq!(exif.date, CalendarDate::new(2020, 06, 21).unwrap());
}

#[test]
fn read_from_generated_exif() {
    let reader = RustReader {};
    let maybe_exif = reader.read(&image("test_data/images/000000581894.jpg"));
    assert!(maybe_exif.is_ok());
    let exif = maybe_exif.unwrap();
    assert_eq!(exif.date, CalendarDate::new(2021, 04, 22).unwrap());
}

#[test]
fn camera_is_read_where_present() {
    let reader = create_exif_reader();
    let with = reader.read(&image("test_data/images/01.jpg")).unwrap();
    assert_eq!(with.camera, Some("\"PENTAX K-1\"".to_string()));
    let without = reader.read(&image("test_data/images/000000581894.jpg")).unwrap();
    assert_eq!(without.camera, None);
}

#[test]
fn bare_tiff_is_read_too() {
    let reader = create_exif_reader();
    let exif = reader.read(&tiff(Some("1999:12:31 23:59:59"), None)).unwrap();
    assert_eq!(exif.date, CalendarDate::new(1999, 12, 31).unwrap());
}

#[test]
fn different_bytes_give_different_dates() {
    let reader = create_exif_reader();
    let a = reader.read(&jpeg(Some(tiff(Some("2001:02:03 00:00:00"), None)))).unwrap();
    let b = reader.read(&jpeg(Some(tiff(Some("2004:05:06 00:00:00"), None)))).unwrap();
    assert_eq!(a.date, CalendarDate::new(2001, 2, 3).unwrap());
    assert_eq!(b.date, CalendarDate::new(2004, 5, 6).unwrap());
}

#[test]
fn image_without_metadata_is_unreadable() {
    let reader = create_exif_reader();
    assert!(matches!(reader.read(&jpeg(None)), Err(ArrangeError::ExifError(_))));
}

#[test]
fn bytes_of_no_known_format_are_unreadable() {
    let reader = create_exif_reader();
    assert!(matches!(reader.read(b"not an image at all"), Err(ArrangeError::ExifError(_))));
    assert!(matches!(reader.read(b""), Err(ArrangeError::ExifError(_))));
}

#[test]
fn truncated_image_is_unreadable() {
    let reader = create_exif_reader();
    let mut bytes = image("test_data/images/01.jpg");
    bytes.truncate(30);
    assert!(matches!(reader.read(&bytes), Err(ArrangeError::ExifError(_))));
}

#[test]
fn missing_capture_time_is_reported_as_missing_field() {
    let reader = create_exif_reader();
    let r = reader.read(&jpeg(Some(tiff(None, Some("PENTAX K-1")))));
    assert!(matches!(r, Err(ArrangeError::NoFieldError())));
}

#[test]
fn blank_capture_time_is_reported_as_missing_field() {
    let reader = create_exif_reader();
    let r = reader.read(&jpeg(Some(tiff(Some("    :  :     :  :  "), None))));
    assert!(matches!(r, Err(ArrangeError::NoFieldError())));
}

#[test]
fn impossible_capture_date_is_reported_as_missing_field() {
    let reader = create_exif_reader();
    let r = reader.read(&jpeg(Some(tiff(Some("2020:13:45 00:00:00"), None))));
    assert!(matches!(r, Err(ArrangeError::NoFieldError())));
}

#[test]
fn capture_date_is_the_part_before_the_first_space() {
    assert_eq!(parse_capture_date("2020-06-21 15:04:05"), CalendarDate::new(2020, 6, 21));
    assert_eq!(parse_capture_date("2020-06-21 "), CalendarDate::new(2020, 6, 21));
    assert_eq!(parse_capture_date("2020-06-21 a b c"), CalendarDate::new(2020, 6, 21));
}

#[test]
fn capture_date_needs_a_space_and_a_date() {
    assert_eq!(parse_capture_date("2020-06-21"), None);
    assert_eq!(parse_capture_date("unknown"), None);
    assert_eq!(parse_capture_date(""), None);
    assert_eq!(parse_capture_date(" 2020-06-21"), None);
    assert_eq!(parse_capture_date("2020-02-30 10:00:00"), None);
}

#[test]
fn metadata_from_fields_requires_the_date_only() {
    let fields = ExifFields { datetime_original: Some("2020-06-21 15:04:05".to_string()), model: None };
    let data = ExifData::from_fields(fields).unwrap();
    assert_eq!(data.date, CalendarDate::new(2020, 6, 21).unwrap());
    assert_eq!(data.camera, None);
    let fields = ExifFields {
        datetime_original: Some("2020-06-21 15:04:05".to_string()),
        model: Some("X100".to_string()),
    };
    assert_eq!(ExifData::from_fields(fields).unwrap().camera, Some("X100".to_string()));
}

#[test]
fn metadata_from_fields_fails_without_usable_date() {
    let none = ExifFields { datetime_original: None, model: Some("X100".to_string()) };
    assert!(matches!(ExifData::from_fields(none), Err(ArrangeError::NoFieldError())));
    let bad = ExifFields { datetime_original: Some("yesterday".to_string()), model: None };
    assert!(matches!(ExifData::from_fields(bad), Err(ArrangeError::NoFieldError())));
}

#[test]
fn image_info_requires_time_and_camera() {
    let info = ImageInfo::read_exif("a/01.jpg", &image("test_data/images/01.jpg")).unwrap();
    assert_eq!(info.path, "a/01.jpg");
    assert_eq!(info.datetime, "2020-06-21 15:04:05");
    assert_eq!(info.path_datetime, "");
    assert_eq!(info.camera, "\"PENTAX K-1\"");
}

#[test]
fn image_info_fails_when_a_field_is_missing() {
    let no_camera = ImageInfo::read_exif("a", &image("test_data/images/000000581894.jpg"));
    assert!(matches!(no_camera, Err(ArrangeError::NoFieldError())));
    let no_time = ImageInfo::read_exif("a", &jpeg(Some(tiff(None, Some("PENTAX K-1")))));
    assert!(matches!(no_time, Err(ArrangeError::NoFieldError())));
    let nothing = ImageInfo::read_exif("a", &jpeg(None));
    assert!(matches!(nothing, Err(ArrangeError::ExifError(_))));
}

#[test]
fn image_info_from_fields_copies_the_texts() {
    let fields = ExifFields {
        datetime_original: Some("2020-06-21 15:04:05".to_string()),
        model: Some("X100".to_string()),
    };
    let info = ImageInfo::from_fields("p.jpg", fields).unwrap();
    assert_eq!(
        (info.path.as_str(), info.datetime.as_str(), info.path_datetime.as_str(), info.camera.as_str()),
        ("p.jpg", "2020-06-21 15:04:05", "", "X100")
    );
}

#[test]
fn messages_of_own_errors() {
    assert_eq!(ArrangeError::NoFieldError().message(), "field not found");
    assert_eq!(ArrangeError::WalkDirError().message(), "cant walk dir");
    assert_eq!(
        ArrangeError::PathNotFile("a/b".to_string()).message(),
        "expected file, not directory (a/b)"
    );
}

#[test]
fn messages_of_outside_errors_are_their_own() {
    let io = std::io::Error::new(std::io::ErrorKind::Other, "disk on fire");
    assert_eq!(ArrangeError::from(io).message(), "disk on fire");
    let reader = create_exif_reader();
    match reader.read(b"nothing") {
        Err(e) => assert_eq!(e.message(), "Unknown image format"),
        Ok(_) => panic!("read something from nothing"),
    }
}

#[test]
fn outside_errors_convert_into_their_variants() {
    let io = std::io::Error::new(std::io::ErrorKind::Other, "x");
    assert!(matches!(ArrangeError::from(io), ArrangeError::Io(_)));
    let exif = exif::Error::NotFound("JPEG");
    assert!(matches!(ArrangeError::from(exif), ArrangeError::ExifError(_)));
}
