//! Core of a build-time content fetcher: given a payload fetched from a URL, it is
//! either written verbatim to an output path or treated as a (possibly gzip-compressed)
//! tar archive and extracted under a destination root, dropping the archive's leading
//! path segment and rejecting every traversal-capable entry path.
//!
//! This crate holds the decision logic of that pipeline — flag parsing, codec
//! selection, path normalization and stripping, and the per-entry extraction
//! coordination with deferred directory metadata — all of it verified. The
//! surrounding process (environment, HTTP transfer, filesystem writes) lives outside.

pub mod archive;
pub mod codec;
pub mod config;
pub mod errors;
pub mod extract;
pub mod paths;
