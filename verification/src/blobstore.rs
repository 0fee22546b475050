//! Connection parameters of the blob store, the external collaborator that
//! fetches and stores raw object bytes by a `container/object-key`
//! identifier.
//!
//! The store itself is driven by the embedding binary; this crate validates
//! identifiers (see `identifier`) and carries the connection parameters as
//! plain values.

use vstd::prelude::*;

verus! {

/// Connection parameters for the blob store.
#[derive(Clone, Debug, PartialEq, Eq)]
pub struct S3Config {
    pub endpoint: String,
    pub access_key: String,
    pub secret_key: String,
    pub region: String,
    pub use_path_style: bool,
}

impl S3Config {
    /// The region the connection will use: the configured one, or the
    /// conventional default when none was configured.
    pub fn effective_region(&self) -> (r: &str)
        ensures
            self.region@.len() == 0 ==> r@ == "us-east-1"@,
            self.region@.len() > 0 ==> r@ == self.region@,
    {
        if self.region.as_str().is_empty() {
            "us-east-1"
        } else {
            self.region.as_str()
        }
    }
}

} // verus!
