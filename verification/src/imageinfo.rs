//! The metadata of an image for which both the capture time and the
//! camera are required.

use crate::error::ArrangeError;
use crate::exifreader::{decode_fields, exif_fields_of, text_of, ExifFields};
use vstd::prelude::*;
use vstd::string::*;

verus! {

#[derive(Debug)]
pub struct ImageInfo {
    pub path: String,
    pub datetime: String,
    pub path_datetime: String,
    pub camera: String,
}

/// What the found fields come to for an image at `path`.
pub open spec fn image_info_outcome(
    path: Seq<char>,
    found: Option<(Option<Seq<char>>, Option<Seq<char>>)>,
    r: Result<ImageInfo, ArrangeError>,
) -> bool {
    match found {
        None => r matches Err(ArrangeError::ExifError(_)),
        Some((Some(datetime), Some(model))) => {
            &&& r matches Ok(info)
            &&& info.path@ == path
            &&& info.datetime@ == datetime
            &&& info.path_datetime@ == Seq::<char>::empty()
            &&& info.camera@ == model
        },
        Some(_) => r matches Err(ArrangeError::NoFieldError()),
    }
}

/// The texts of fields that were found.
pub open spec fn fields_found(fields: ExifFields) -> Option<
    (Option<Seq<char>>, Option<Seq<char>>),
> {
    Some((text_of(fields.datetime_original), text_of(fields.model)))
}

impl ImageInfo {
    /// The information that the fields of a file give. Both the capture
    /// time and the camera model are required: where either is absent the
    /// result is `NoFieldError`.
    pub fn from_fields(file_path: &str, fields: ExifFields) -> (r: Result<ImageInfo, ArrangeError>)
        ensures
            image_info_outcome(file_path@, fields_found(fields), r),
    {
        let datetime = match fields.datetime_original {
            Some(datetime) => datetime,
            None => {
                return Err(ArrangeError::NoFieldError());
            },
        };
        let camera = match fields.model {
            Some(camera) => camera,
            None => {
                return Err(ArrangeError::NoFieldError());
            },
        };
        Ok(
            ImageInfo {
                path: String::from_str(file_path),
                datetime,
                path_datetime: String::new(),
                camera,
            },
        )
    }

    /// Reads the information from the bytes of the file at `file_path`.
    pub fn read_exif(file_path: &str, image: &[u8]) -> (r: Result<ImageInfo, ArrangeError>)
        ensures
            image_info_outcome(file_path@, exif_fields_of(image@), r),
    {
        match decode_fields(image) {
            Err(e) => Err(ArrangeError::ExifError(e)),
            Ok(fields) => Self::from_fields(file_path, fields),
        }
    }
}

} // verus!
