//! The data model: the persisted record and the two request shapes.

use vstd::prelude::*;

verus! {

/// One persisted profile record, in its final schema: a composite
/// string key and an enumerated string visibility.
#[derive(Debug)]
pub struct Profile {
    pub user_id: String,
    pub profile_id: String,
    pub bio: String,
    pub visibility: String,
}

/// The body of a create request; the server generates `profile_id`.
#[derive(Debug)]
pub struct CreateProfileRequest {
    pub user_id: String,
    pub bio: String,
    pub visibility: String,
}

/// The body of an update request; the key pair comes from the path.
#[derive(Debug)]
pub struct PutProfileRequest {
    pub bio: String,
    pub visibility: String,
}

} // verus!
