use vstd::prelude::*;

use globset::Error as GlobError;

verus! {

/// What can stop an analysis.
#[derive(Debug)]
pub enum Error {
    /// The count of files to show is not a number.
    InvalidNumberOfFiles(String),
    /// A path cannot be represented as text.
    PathNotUtf8(String),
    /// A glob pattern does not compile.
    Glob(GlobError),
}

} // verus!
