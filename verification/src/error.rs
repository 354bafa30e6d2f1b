//! The failures that the library reports to its callers.

use vstd::prelude::*;

verus! {

/// No system is registered under the handle that was given.
#[derive(Clone, Copy, PartialEq, Eq, Structural, Debug)]
pub struct NoSuchSystem;

impl NoSuchSystem {
    /// The message of this failure.
    pub fn message(&self) -> (text: &'static str)
        ensures
            text@ == "no such system"@,
    {
        "no such system"
    }
}

/// Why a resource could not be handed to a system body.
#[derive(Clone, Copy, PartialEq, Eq, Structural, Debug)]
pub enum ResourceError {
    /// No resource of the type is in the store.
    NoSuchResource,
    /// The resource is in use elsewhere, so it cannot be had for writing.
    CannotBorrowMutably,
    /// The resource is being written elsewhere, so it cannot be had for reading.
    CannotBorrowImmutably,
}

impl ResourceError {
    /// The message of this failure.
    pub fn message(&self) -> (text: &'static str)
        ensures
            text@ == match *self {
                ResourceError::NoSuchResource => "no such resource"@,
                ResourceError::CannotBorrowMutably => "cannot borrow mutably"@,
                ResourceError::CannotBorrowImmutably => "cannot borrow immutably"@,
            },
    {
        match self {
            ResourceError::NoSuchResource => "no such resource",
            ResourceError::CannotBorrowMutably => "cannot borrow mutably",
            ResourceError::CannotBorrowImmutably => "cannot borrow immutably",
        }
    }
}

} // verus!
