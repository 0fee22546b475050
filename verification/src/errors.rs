//! Failure taxonomy of the proxy core.
//!
//! Every fallible operation of this crate reports one of these variants; the
//! embedding service decides how to render them (typically a not-found
//! response).  No failure is fatal to the process: each is local to the
//! request that raised it.

use vstd::prelude::*;

verus! {

/// The distinct ways a request through the proxy core can fail.
#[derive(Clone, Copy, Debug, PartialEq, Eq, Structural)]
pub enum ImageError {
    /// The object identifier does not split into two non-empty parts
    /// (container and object key) on the first separator.
    InvalidIdentifier,
    /// The blob store could not resolve the identifier or rejected the fetch.
    ObjectUnavailable,
    /// The fetched bytes are not a recognized image.
    DecodeError,
    /// Re-encoding the transformed image failed.
    EncodeError,
    /// The cache configuration is invalid; raised only at construction.
    CapacityConfigError,
}

impl ImageError {
    /// A short description of the failure (this crate's types carry no
    /// `Display` impl; callers that need text use this).
    pub fn message(&self) -> (r: &'static str)
        ensures
            *self is InvalidIdentifier ==> r@ == "invalid identifier: expected container/object-key"@,
            *self is ObjectUnavailable ==> r@ == "object unavailable in blob store"@,
            *self is DecodeError ==> r@ == "input bytes are not a recognized image"@,
            *self is EncodeError ==> r@ == "image encoding failed"@,
            *self is CapacityConfigError ==> r@ == "invalid cache configuration"@,
    {
        match self {
            ImageError::InvalidIdentifier => "invalid identifier: expected container/object-key",
            ImageError::ObjectUnavailable => "object unavailable in blob store",
            ImageError::DecodeError => "input bytes are not a recognized image",
            ImageError::EncodeError => "image encoding failed",
            ImageError::CapacityConfigError => "invalid cache configuration",
        }
    }
}

} // verus!
