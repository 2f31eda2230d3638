//! Failures that building an image can report.

use vstd::prelude::*;

verus! {

/// Why a tree could not be built or laid out.
#[derive(Debug, PartialEq, Eq, Structural)]
pub enum Error {
    /// A path names no file: it has no final component.
    NotAFile,
    /// A path component is not valid UTF-8 and cannot become a name.
    InvalidName,
    /// A directory or file is too large for the 32-bit fields of its record,
    /// or the image needs more than 2^32 sectors.
    ImageTooLarge,
    /// A record holds more than its encoding allows.
    Encoding,
    /// The sector size is outside 2048 to 65535 bytes.
    InvalidSectorSize,
}

} // verus!
