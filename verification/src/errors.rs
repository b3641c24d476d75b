//! The ways in which an operation of this library fails.

use vstd::prelude::*;

verus! {

/// Why an operation failed.
#[derive(Copy, Clone, PartialEq, Eq, Hash, Debug, Structural)]
pub enum ErrorKind {
    /// No root directory holds the episode that was asked for.
    NotFound,
    /// A file could not be read for lack of permission.
    PermissionDenied,
    /// A path, a token or a form value does not have the expected shape.
    Format,
    /// A session file does not have the expected structure.
    Parse,
    /// The rater has already seen every episode of the catalog.
    Exhausted,
    /// A log file holds a row that cannot be read back.
    Log,
    /// Reading or writing a file failed in any other way.
    Io,
}

/// The HTTP status that reports a failure of the given kind.
pub open spec fn status_of(kind: ErrorKind) -> u16 {
    match kind {
        ErrorKind::NotFound => 404,
        ErrorKind::PermissionDenied => 403,
        ErrorKind::Format => 400,
        _ => 500,
    }
}

/// The HTTP status that reports a failure of the given kind: 404 for an
/// episode that is nowhere to be found, 403 for a denied read, 400 for
/// malformed input and 500 for everything else.
pub fn status_code(kind: ErrorKind) -> (code: u16)
    ensures
        code == status_of(kind),
{
    match kind {
        ErrorKind::NotFound => 404,
        ErrorKind::PermissionDenied => 403,
        ErrorKind::Format => 400,
        _ => 500,
    }
}

} // verus!
