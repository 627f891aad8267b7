//! Errors of the editor core.

use vstd::prelude::*;

verus! {

/// What can go wrong, or end the main loop.
#[derive(Debug, Clone)]
pub enum Error {
    /// Not a failure: the main loop should end.
    Exit,
    /// A message for the user.
    Custom(String),
    /// A file, clipboard or terminal operation failed.
    Io(String),
    /// A request was attempted with an empty buffer.
    EmptyInput,
    /// An operation needed a selection and there was none.
    NoSelection,
    /// The language-model backend failed.
    Backend(String),
}

} // verus!
