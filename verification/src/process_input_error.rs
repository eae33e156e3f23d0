//! Errors that happen while processing input static libraries and extracting
//! objects from them.

use vstd::prelude::*;

verus! {

#[derive(Debug)]
pub enum ProcessInputError {
    /// An input file could not be opened.
    FileOpen { path: String, inner: std::io::Error },
    /// The scratch directory for extracted objects could not be created.
    TempDir(std::io::Error),
    /// An entry of an input archive could not be read.
    ReadingArchive { name: String, inner: std::io::Error },
    /// The input archives contained no objects at all.
    Empty,
    /// An extracted object file could not be written.
    ExtractingObject { path: String, inner: std::io::Error },
}

} // verus!
