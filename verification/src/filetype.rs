//! The kind of a file, decided by its extension.

use crate::path::{extension, extension_of};
use crate::text::{eq_ignore_case, same_ignoring_case};
use vstd::prelude::*;
use vstd::string::*;

verus! {

#[derive(Debug, Clone, Copy, PartialEq, Eq, Structural)]
pub enum FileType {
    IMAGE,
    RAW,
    MOVIE,
}

/// The extension `jpg` or `jpeg`, in any case.
pub open spec fn is_jpeg_extension(ext: Seq<char>) -> bool {
    same_ignoring_case(ext, seq!['j', 'p', 'g']) || same_ignoring_case(
        ext,
        seq!['j', 'p', 'e', 'g'],
    )
}

/// The extension equals a member of the raw set, in any case.
pub open spec fn in_raw_set(ext: Seq<char>, raw_exts: Seq<String>) -> bool {
    exists|i: int| 0 <= i < raw_exts.len() && same_ignoring_case(ext, #[trigger] raw_exts[i]@)
}

/// The kind of a file with the given extension.
pub open spec fn kind_of_extension(ext: Seq<char>, raw_exts: Seq<String>) -> FileType {
    if is_jpeg_extension(ext) {
        FileType::IMAGE
    } else if in_raw_set(ext, raw_exts) {
        FileType::RAW
    } else {
        FileType::IMAGE
    }
}

/// The kind of the file that a path names; `None` where it has no extension.
pub open spec fn classify(path: Seq<char>, raw_exts: Seq<String>) -> Option<FileType> {
    match extension_of(path) {
        Some(ext) => Some(kind_of_extension(ext, raw_exts)),
        None => None,
    }
}

/// Whether `ext` equals a member of `raw_exts`, in any case.
pub fn is_raw_extension(ext: &str, raw_exts: &Vec<String>) -> (r: bool)
    ensures
        r == in_raw_set(ext@, raw_exts@),
{
    let mut i: usize = 0;
    while i < raw_exts.len()
        invariant
            i <= raw_exts.len(),
            forall|j: int| 0 <= j < i ==> !same_ignoring_case(ext@, #[trigger] raw_exts@[j]@),
        decreases raw_exts.len() - i,
    {
        if eq_ignore_case(ext, raw_exts[i].as_str()) {
            return true;
        }
        i += 1;
    }
    false
}

impl FileType {
    /// Detects the kind of a file from the extension of its path.
    ///
    /// A path without extension has no kind. `jpg` and `jpeg` are images
    /// whatever the raw set holds; an extension of the raw set is raw; any
    /// other extension is an image. Case is ignored throughout.
    pub fn try_from_path(path: &str, raw_exts: &Vec<String>) -> (r: Option<FileType>)
        ensures
            r == classify(path@, raw_exts@),
    {
        match extension(path) {
            None => None,
            Some(ext) => {
                proof {
                    reveal_strlit("jpg");
                    reveal_strlit("jpeg");
                    assert("jpg"@ =~= seq!['j', 'p', 'g']);
                    assert("jpeg"@ =~= seq!['j', 'p', 'e', 'g']);
                }
                if eq_ignore_case(ext, "jpg") || eq_ignore_case(ext, "jpeg") {
                    Some(FileType::IMAGE)
                } else if is_raw_extension(ext, raw_exts) {
                    Some(FileType::RAW)
                } else {
                    Some(FileType::IMAGE)
                }
            },
        }
    }
}

/// A `jpg` or `jpeg` file is an image, whatever the raw set holds.
pub proof fn lemma_jpeg_is_image(path: Seq<char>, raw_exts: Seq<String>)
    requires
        extension_of(path) matches Some(ext) && is_jpeg_extension(ext),
    ensures
        classify(path, raw_exts) == Some(FileType::IMAGE),
{
}

/// A file whose extension is in the raw set, and is neither `jpg` nor
/// `jpeg`, is raw.
pub proof fn lemma_raw_extension_is_raw(path: Seq<char>, raw_exts: Seq<String>)
    requires
        extension_of(path) matches Some(ext) && in_raw_set(ext, raw_exts) && !is_jpeg_extension(
            ext,
        ),
    ensures
        classify(path, raw_exts) == Some(FileType::RAW),
{
}

} // verus!
