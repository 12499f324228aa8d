//! Failures that the arranging of files can meet.

use vstd::prelude::*;
use vstd::string::*;

verus! {

#[verifier::external_type_specification]
#[verifier::external_body]
pub struct ExIoError(std::io::Error);

#[verifier::external_type_specification]
#[verifier::external_body]
pub struct ExExifError(exif::Error);

#[derive(Debug)]
pub enum ArrangeError {
    /// A file or directory could not be read or changed.
    Io(std::io::Error),
    /// The metadata container is corrupt or of an unsupported kind.
    ExifError(exif::Error),
    /// A required metadata field is absent or holds no usable value.
    NoFieldError(),
    /// A file was expected where something else was found.
    PathNotFile(String),
    /// A directory could not be listed.
    WalkDirError(),
}

/// The text that `std::io::Error` displays. Nothing is claimed of it: it
/// comes from the operating system.
#[verifier::external_body]
fn io_error_text(error: &std::io::Error) -> (r: String) {
    error.to_string()
}

/// The text that `exif::Error` displays. Nothing is claimed of it.
#[verifier::external_body]
fn exif_error_text(error: &exif::Error) -> (r: String) {
    error.to_string()
}

impl ArrangeError {
    /// The message of an error that carries no outside error.
    pub open spec fn own_message(self) -> Seq<char> {
        match self {
            ArrangeError::NoFieldError() => "field not found"@,
            ArrangeError::WalkDirError() => "cant walk dir"@,
            ArrangeError::PathNotFile(p) => "expected file, not directory ("@ + p@ + ")"@,
            _ => Seq::empty(),
        }
    }

    /// A message for the user. For `Io` and `ExifError` it is the outside
    /// error's own text.
    pub fn message(&self) -> (r: String)
        ensures
            !(self is Io) && !(self is ExifError) ==> r@ == self.own_message(),
    {
        match self {
            ArrangeError::Io(e) => io_error_text(e),
            ArrangeError::ExifError(e) => exif_error_text(e),
            ArrangeError::NoFieldError() => String::from_str("field not found"),
            ArrangeError::WalkDirError() => String::from_str("cant walk dir"),
            ArrangeError::PathNotFile(p) => {
                let mut r = String::from_str("expected file, not directory (");
                r.append(p.as_str());
                r.append(")");
                r
            },
        }
    }
}

impl From<exif::Error> for ArrangeError {
    fn from(error: exif::Error) -> (r: Self) {
        ArrangeError::ExifError(error)
    }
}

impl vstd::std_specs::convert::FromSpecImpl<exif::Error> for ArrangeError {
    open spec fn obeys_from_spec() -> bool {
        true
    }

    open spec fn from_spec(error: exif::Error) -> Self {
        ArrangeError::ExifError(error)
    }
}

impl From<std::io::Error> for ArrangeError {
    fn from(error: std::io::Error) -> (r: Self) {
        ArrangeError::Io(error)
    }
}

impl vstd::std_specs::convert::FromSpecImpl<std::io::Error> for ArrangeError {
    open spec fn obeys_from_spec() -> bool {
        true
    }

    open spec fn from_spec(error: std::io::Error) -> Self {
        ArrangeError::Io(error)
    }
}

} // verus!
