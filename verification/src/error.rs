//! The three failure kinds and their HTTP mapping.

use vstd::prelude::*;

verus! {

/// Why a profile operation failed.
#[derive(Debug)]
pub enum ProfileError {
    /// A field failed validation: the client's fault.
    Validation(String),
    /// No record under the addressed key.
    NotFound,
    /// The store itself failed; the underlying message is carried.
    Store(String),
}

/// The HTTP status each failure maps to.
pub open spec fn status_of(e: ProfileError) -> u16 {
    match e {
        ProfileError::Validation(_) => 400,
        ProfileError::NotFound => 404,
        ProfileError::Store(_) => 500,
    }
}

impl ProfileError {
    /// The failure half of the routing table: validation errors are
    /// client errors, a missing record is not found, and any store
    /// failure is a server error.
    pub fn status_code(&self) -> (code: u16)
        ensures
            code == status_of(*self),
    {
        match self {
            ProfileError::Validation(_) => 400,
            ProfileError::NotFound => 404,
            ProfileError::Store(_) => 500,
        }
    }
}

} // verus!
