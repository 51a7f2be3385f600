use vstd::prelude::*;

use crate::error::{ClassReaderError, Result};

verus! {

/// The oldest major version this decoder reads.
pub const MIN_MAJOR: u16 = 45;

/// The newest major version this decoder reads.
pub const MAX_MAJOR: u16 = 69;

/// The first major version whose minor version marks only preview features.
pub const PREVIEW_MAJOR: u16 = 56;

/// Whether the decoder reads class files of version `major.minor`: majors in
/// its range, and from the preview-era major on, only minor 0 or the preview
/// marker 0xFFFF.
pub open spec fn supported(major: u16, minor: u16) -> bool {
    MIN_MAJOR <= major <= MAX_MAJOR && (major < PREVIEW_MAJOR || minor == 0 || minor == 0xFFFF)
}

/// The version of a class file.
#[derive(Debug, Clone, Copy, PartialEq, Eq, Structural)]
pub struct ClassFileVersion {
    pub major: u16,
    pub minor: u16,
}

impl ClassFileVersion {
    /// The version `major.minor`, if it is supported.
    pub fn from(major: u16, minor: u16) -> (r: Result<Self>)
        ensures
            supported(major, minor) ==> r == Ok::<Self, ClassReaderError>(ClassFileVersion { major, minor }),
            !supported(major, minor) ==> r == Err::<Self, ClassReaderError>(ClassReaderError::UnsupportedVersion(major, minor)),
    {
        if MIN_MAJOR <= major && major <= MAX_MAJOR && (major < PREVIEW_MAJOR || minor == 0 || minor == 0xFFFF) {
            Ok(ClassFileVersion { major, minor })
        } else {
            Err(ClassReaderError::UnsupportedVersion(major, minor))
        }
    }
}

} // verus!
