//! Dependency resolution, lock handling and batch build orchestration for
//! Lingua Franca packages.
//!
//! The crate keeps every decision in verified code. Work that touches the
//! file system, the network or a build tool is handed to it as plain values or
//! as closures, so that the rules can be stated and proved independently of it.

use vstd::prelude::*;

pub mod args;
pub mod backends;
pub mod package;
pub mod util;

verus! {

/// Reasons why a binary could not be located on the search path.
#[derive(Debug)]
pub enum WhichError {
    /// An executable binary with that name was not found
    CannotFindBinaryPath,
    /// There was nowhere to search and the provided name wasn't an absolute path
    CannotGetCurrentDirAndPathListEmpty,
    /// Failed to canonicalize the path found
    CannotCanonicalize,
}

impl WhichError {
    /// The text shown to the user for this error.
    pub fn message(&self) -> (text: &'static str)
        ensures
            text@ == match self {
                WhichError::CannotFindBinaryPath => "cannot find binary"@,
                WhichError::CannotGetCurrentDirAndPathListEmpty => "cannot get current dir and path list empty"@,
                WhichError::CannotCanonicalize => "cannot canonicalize"@,
            },
    {
        match self {
            WhichError::CannotFindBinaryPath => "cannot find binary",
            WhichError::CannotGetCurrentDirAndPathListEmpty => {
                "cannot get current dir and path list empty"
            },
            WhichError::CannotCanonicalize => "cannot canonicalize",
        }
    }
}

/// A failed clone or checkout, with the reason as text.
#[derive(Debug)]
pub struct GitCloneError(pub String);

impl GitCloneError {
    /// The text shown to the user for this error.
    pub fn message(&self) -> (text: &str)
        ensures
            text@ == self.0@,
    {
        self.0.as_str()
    }
}

/// The address of a git repository, as handed to the clone capability.
pub struct GitUrl<'a>(&'a str);

impl<'a> GitUrl<'a> {
    pub closed spec fn view(&self) -> Seq<char> {
        self.0@
    }

    /// Wraps an address.
    pub fn from(value: &'a str) -> (url: Self)
        ensures
            url@ == value@,
    {
        GitUrl(value)
    }

    /// The address that was wrapped.
    pub fn as_str(&self) -> (text: &'a str)
        ensures
            text@ == self@,
    {
        self.0
    }
}

} // verus!
