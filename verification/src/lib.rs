//! Verified core of a content-addressed incremental backup system.
//!
//! The client side splits files into fixed-size chunks, addresses each chunk
//! by a keyed hash of its plaintext, seals it as `nonce || ciphertext`, and
//! uploads only chunks the server does not already hold. The server side
//! stores chunks inline or externally, keeps snapshot roots, and maintains a
//! per-bucket delete epoch that invalidates client caches.

use vstd::prelude::*;

pub mod auth;
pub mod client;
pub mod dirent;
pub mod handlers;
pub mod ident;
pub mod numfmt;
pub mod router;
pub mod seal;
pub mod serialize;
pub mod store;

verus! {

/// Access levels form a total order: `Get < Put < Delete`.
/// A user with a higher level may perform every operation a lower level may.
#[derive(Clone, Copy, PartialEq, Eq, Structural, Debug)]
pub enum AccessType {
    Get,
    Put,
    Delete,
}

/// The type of a directory entry.
#[derive(Clone, Copy, PartialEq, Eq, Structural, Debug)]
pub enum EType {
    Dir,
    File,
    Link,
}

/// The failures the library's own checks report. All abort the current run.
#[derive(Debug)]
pub enum Error {
    /// An HTTP request returned an unexpected status.
    HttpStatus(u16),
    /// A static diagnostic.
    Msg(&'static str),
    /// A malformed identifier or message on the server side.
    Server(&'static str),
}

} // verus!
