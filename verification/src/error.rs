//! The ways in which reading a sample directory or a data file fails.

use vstd::prelude::*;

verus! {

/// Why a listing or a column could not be produced.
#[derive(Debug, Clone, Copy, PartialEq, Eq, Structural)]
pub enum ReadError {
    /// The directory does not exist or cannot be listed. Raised by the caller
    /// that lists the directory.
    DirectoryNotFound,
    /// The file does not exist or cannot be opened. Raised by the caller that
    /// reads the file.
    FileNotFound,
    /// A row of the text cannot be decoded. The whole read is given up.
    RowParseError,
}

} // verus!
