//! Capture metadata: what is read from a file, and what it means.

use crate::date::{chrono_parse_date, is_iso_shape, iso_value, CalendarDate, DATE_FORMAT};
use crate::error::ArrangeError;
use crate::text::{find_first, first_position};
use exif::{In, Tag};
use vstd::prelude::*;
use vstd::string::*;

verus! {

/// The metadata fields of a file that matter here, as text.
pub struct ExifFields {
    /// The value of the field for the time at which the picture was taken.
    pub datetime_original: Option<String>,
    /// The value of the field for the camera model.
    pub model: Option<String>,
}

/// The capture metadata of a file.
#[derive(Debug, Clone)]
pub struct ExifData {
    pub date: CalendarDate,
    pub camera: Option<String>,
}

pub open spec fn text_of(s: Option<String>) -> Option<Seq<char>> {
    match s {
        Some(t) => Some(t@),
        None => None,
    }
}

/// What the `exif` crate reads from the bytes of a file: `None` where it
/// reports an error, else the displayed values of the fields
/// `DateTimeOriginal` and `Model` of the primary image, each `None` where
/// the field is absent.
pub uninterp spec fn exif_fields_of(image: Seq<u8>) -> Option<
    (Option<Seq<char>>, Option<Seq<char>>),
>;

pub open spec fn fields_view(r: Result<ExifFields, exif::Error>) -> Option<
    (Option<Seq<char>>, Option<Seq<char>>),
> {
    match r {
        Ok(f) => Some((text_of(f.datetime_original), text_of(f.model))),
        Err(_) => None,
    }
}

/// Calls `exif::Reader::read_from_container` on the bytes and takes the two
/// fields out with `Exif::get_field` and `Field::display_value`. Trusted:
/// the result is the one named by `exif_fields_of`.
#[verifier::external_body]
pub(crate) fn decode_fields(image: &[u8]) -> (r: Result<ExifFields, exif::Error>)
    ensures
        fields_view(r) == exif_fields_of(image@),
{
    let exif = exif::Reader::new().read_from_container(&mut std::io::Cursor::new(image))?;
    let datetime_original = exif.get_field(Tag::DateTimeOriginal, In::PRIMARY).map(
        |f| f.display_value().to_string(),
    );
    let model = exif.get_field(Tag::Model, In::PRIMARY).map(|f| f.display_value().to_string());
    Ok(ExifFields { datetime_original, model })
}

/// The part of a date-and-time text in front of its first space; `None`
/// where it holds no space.
pub open spec fn date_part(datetime: Seq<char>) -> Option<Seq<char>> {
    let k = first_position(datetime, ' ');
    if k < datetime.len() {
        Some(datetime.subrange(0, k))
    } else {
        None
    }
}

/// The capture date that a date-and-time text gives: the date that the
/// part in front of the first space spells. A part of ISO shape is read
/// digit by digit; any other part means what `chrono` makes of it.
pub open spec fn capture_date_of(datetime: Seq<char>) -> Option<CalendarDate> {
    match date_part(datetime) {
        Some(p) => if is_iso_shape(p) {
            CalendarDate::from_parsed_spec(iso_value(p))
        } else {
            CalendarDate::from_parsed_spec(chrono_parse_date(p, DATE_FORMAT@))
        },
        None => None,
    }
}

/// The capture date that the fields give.
pub open spec fn capture_date_of_fields(datetime_original: Option<Seq<char>>) -> Option<
    CalendarDate,
> {
    match datetime_original {
        Some(t) => capture_date_of(t),
        None => None,
    }
}

/// Reads the capture date from a text such as `2020-06-21 10:11:12`: the
/// part in front of the first space, parsed as a date.
pub fn parse_capture_date(datetime: &str) -> (r: Option<CalendarDate>)
    ensures
        r == capture_date_of(datetime@),
{
    let k: usize = find_first(datetime, ' ');
    if k < datetime.unicode_len() {
        CalendarDate::parse(datetime.substring_char(0, k))
    } else {
        None
    }
}

impl ExifData {
    /// The capture metadata that the fields of a file give. The date is
    /// required; the camera model is taken where it is present.
    pub fn from_fields(fields: ExifFields) -> (r: Result<ExifData, ArrangeError>)
        ensures
            match capture_date_of_fields(text_of(fields.datetime_original)) {
                Some(date) => r matches Ok(data) && data.date == date && data.camera
                    == fields.model,
                None => r matches Err(ArrangeError::NoFieldError()),
            },
    {
        match fields.datetime_original {
            None => Err(ArrangeError::NoFieldError()),
            Some(text) => match parse_capture_date(text.as_str()) {
                Some(date) => Ok(ExifData { date, camera: fields.model }),
                None => Err(ArrangeError::NoFieldError()),
            },
        }
    }
}

/// What reading the bytes of a file comes to, given what the decoder found.
pub open spec fn read_outcome(
    found: Option<(Option<Seq<char>>, Option<Seq<char>>)>,
    r: Result<ExifData, ArrangeError>,
) -> bool {
    match found {
        None => r matches Err(ArrangeError::ExifError(_)),
        Some((datetime, model)) => match capture_date_of_fields(datetime) {
            Some(date) => r matches Ok(data) && data.date == date && text_of(data.camera)
                == model,
            None => r matches Err(ArrangeError::NoFieldError()),
        },
    }
}

/// The reader of capture metadata that is built on the `exif` crate.
pub struct RustReader {}

impl RustReader {
    /// Reads the capture metadata from the bytes of a file.
    ///
    /// Fails with `ExifError` where the bytes hold no readable metadata, and
    /// with `NoFieldError` where the capture date is absent or unusable.
    pub fn read(&self, image: &[u8]) -> (r: Result<ExifData, ArrangeError>)
        ensures
            read_outcome(exif_fields_of(image@), r),
    {
        match decode_fields(image) {
            Err(e) => Err(ArrangeError::ExifError(e)),
            Ok(fields) => ExifData::from_fields(fields),
        }
    }
}

/// The reader that the library uses.
pub fn create_exif_reader() -> RustReader {
    RustReader {  }
}

} // verus!
