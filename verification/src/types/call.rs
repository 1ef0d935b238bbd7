//! Records about calls.

use vstd::prelude::*;

verus! {

/// What is known of the client of a caller.
#[derive(Debug)]
pub struct CallRemoteMetadata {
    /// The platform of the caller's client.
    pub remote_platform: String,
    /// The version of the caller's client.
    pub remote_version: String,
}

} // verus!
