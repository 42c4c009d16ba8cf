//! The one failure class of the library: a tree cannot be built from the paths given.

use vstd::prelude::*;

verus! {

/// Why a list of paths was refused.
#[derive(Clone, Copy, Debug, PartialEq, Eq, Structural)]
pub enum Error {
    /// A path is empty or has an empty component: it starts or ends with
    /// the separator, or holds two separators in a row.
    InvalidPath,
    /// A path is nested deeper than an indent can record.
    TooDeep,
}

impl Error {
    /// A short description for the user.
    pub fn message(&self) -> (text: &'static str)
        ensures
            text@ == (match *self {
                Error::InvalidPath => "invalid path"@,
                Error::TooDeep => "path is nested too deeply"@,
            }),
    {
        match self {
            Error::InvalidPath => "invalid path",
            Error::TooDeep => "path is nested too deeply",
        }
    }
}

} // verus!
