//! Error type shared by resolution and the side-effecting actions boundary.

use vstd::prelude::*;

verus! {

/// Why a resolution attempt or an action failed.
///
/// `NotFound` is terminal for the attempt (a missing lockfile entry, an
/// unresolvable target); `InvalidData` means a manifest failed to parse;
/// `Other` carries any remaining I/O or invocation failure as a message.
#[derive(Debug)]
pub enum BuildError {
    NotFound(String),
    InvalidData(String),
    Other(String),
}

impl BuildError {
    /// The human-readable message carried by the error.
    pub fn message(&self) -> (r: &String)
        ensures
            r@ == self.message_view(),
    {
        match self {
            BuildError::NotFound(m) => m,
            BuildError::InvalidData(m) => m,
            BuildError::Other(m) => m,
        }
    }

    /// The message as a sequence of characters.
    pub open spec fn message_view(&self) -> Seq<char> {
        match self {
            BuildError::NotFound(m) => m@,
            BuildError::InvalidData(m) => m@,
            BuildError::Other(m) => m@,
        }
    }

    /// A copy of the error with the same variant and an equal message.
    pub fn duplicate(&self) -> (r: BuildError)
        ensures
            r is NotFound <==> self is NotFound,
            r is InvalidData <==> self is InvalidData,
            r is Other <==> self is Other,
            r.message_view() == self.message_view(),
    {
        match self {
            BuildError::NotFound(m) => BuildError::NotFound(m.clone()),
            BuildError::InvalidData(m) => BuildError::InvalidData(m.clone()),
            BuildError::Other(m) => BuildError::Other(m.clone()),
        }
    }
}

} // verus!
