//! Read-only, randomly-addressable access to a compressed, append-only
//! archive of named byte blobs.
//!
//! A source directory tree is serialized into a single zstd-compressed tar
//! container by the archive builder.  The query side answers three kinds of
//! request against the decoded entry list: fetch the bytes of a file, fetch
//! the metadata classification of a path, and list the immediate children of
//! a directory.  The tar and zstd crates perform the container encoding and
//! compression behind a small set of trusted wrappers; everything around
//! them — path comparison, lookup, classification, child enumeration and
//! the request dispatch — is verified.

pub mod codec;
pub mod config;
pub mod entry;
pub mod laws;
pub mod paths;
pub mod query;
pub mod worker;
