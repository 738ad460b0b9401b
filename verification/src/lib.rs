//! Core logic of a local-network file-drop service.
//!
//! The library covers the upload pipeline: decomposing an uploaded file
//! name into stem and extension, composing a collision-resistant
//! destination name from a random token, processing the parts of a
//! multipart request with early-abort error semantics, extracting a
//! trimmed text note from a message request, and the request body size
//! guard. Network and filesystem plumbing live outside the library and
//! hand it plain values.

use vstd::prelude::*;

pub mod message;
pub mod naming;
pub mod text;
pub mod upload;

verus! {

/// Outcome of a request, mirrored onto an HTTP status by the server:
/// full success, an aborted upload, or a body over the configured limit.
#[derive(Clone, Copy, Debug, PartialEq, Eq, Structural)]
pub enum Status {
    Success,
    ServerError,
    PayloadTooLarge,
}

/// A body of `body_len` bytes is admitted when no limit is configured,
/// or when it does not exceed the configured limit.
pub open spec fn admits(body_len: u64, limit: Option<u64>) -> bool {
    match limit {
        None => true,
        Some(k) => body_len <= k,
    }
}

/// The body size guard: decides whether a request body may be handed to
/// a handler at all.
pub fn admits_body(body_len: u64, limit: Option<u64>) -> (r: bool)
    ensures
        r == admits(body_len, limit),
{
    match limit {
        None => true,
        Some(k) => body_len <= k,
    }
}

} // verus!
