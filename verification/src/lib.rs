//! Core engine of an on-demand image transformation proxy.
//!
//! Given a source-object identifier and optional transform parameters
//! (target width/height, quality, output format), the surrounding service
//! returns processed image bytes, computing them once and serving repeated
//! identical requests from a bounded in-memory cache.  This crate holds the
//! part with real invariants: cache-key derivation, the byte-capacity-bounded
//! cache with time-to-live and time-to-idle expiry, transform planning, and
//! the request orchestration steps around them.  Object-store access, image
//! decoding/encoding and the HTTP layer are external collaborators driven by
//! the embedding binary; they exchange plain values (bytes, strings, integers)
//! with the functions here.

pub mod blobstore;
pub mod cache;
pub mod errors;
pub mod identifier;
pub mod keys;
pub mod orchestrator;
pub mod params;
pub mod transform;
