//! Arranges photo files into per-capture-date directories.
//!
//! The library decides; it never touches the file system. Callers list
//! directories and read files, hand the observations over as plain values,
//! and carry out the commands that come back.

pub mod date;
pub mod destinations;
pub mod error;
pub mod exifreader;
pub mod filesearch;
pub mod filetype;
pub mod imageinfo;
pub mod iocommands;
pub mod laws;
pub mod manager;
pub mod path;
pub mod progress;
pub mod text;

pub use error::ArrangeError;
pub use exifreader::RustReader;
pub use filetype::FileType;
pub use imageinfo::ImageInfo;
pub use manager::Manager;
pub use progress::ProgressIndicator;
