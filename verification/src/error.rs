//! The ways in which reading a store can fail.

use vstd::prelude::*;

verus! {

/// Why a store, a table or a record could not be read.
#[derive(Clone, Copy, Debug, PartialEq, Eq, Structural)]
pub enum Error {
    /// A page number beyond the pages of the file.
    OutOfRange,
    /// A page whose header contradicts the page's size or content.
    CorruptPage,
    /// A catalog that does not describe its tables consistently.
    CatalogCorrupt,
    /// A store of a format revision that is not supported.
    UnsupportedVersion,
    /// A tree whose pages do not fit together.
    CorruptBTree,
    /// A record whose tables ask for more bytes than the record has.
    TruncatedRecord,
    /// A long value that is referred to and has no segment.
    DanglingLongValue,
    /// The file could not be read.
    IoError,
}

impl Error {
    /// A short name for diagnostics.
    pub fn name(&self) -> (r: &'static str)
        ensures
            r@ == (match *self {
                Error::OutOfRange => "OutOfRange"@,
                Error::CorruptPage => "CorruptPage"@,
                Error::CatalogCorrupt => "CatalogCorrupt"@,
                Error::UnsupportedVersion => "UnsupportedVersion"@,
                Error::CorruptBTree => "CorruptBTree"@,
                Error::TruncatedRecord => "TruncatedRecord"@,
                Error::DanglingLongValue => "DanglingLongValue"@,
                Error::IoError => "IoError"@,
            }),
    {
        match self {
            Error::OutOfRange => "OutOfRange",
            Error::CorruptPage => "CorruptPage",
            Error::CatalogCorrupt => "CatalogCorrupt",
            Error::UnsupportedVersion => "UnsupportedVersion",
            Error::CorruptBTree => "CorruptBTree",
            Error::TruncatedRecord => "TruncatedRecord",
            Error::DanglingLongValue => "DanglingLongValue",
            Error::IoError => "IoError",
        }
    }
}

} // verus!
