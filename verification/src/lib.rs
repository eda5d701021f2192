//! Indexing of WARC files for WACZ packaging.
//!
//! The core walks a WARC file (plain, or gzip with one member per
//! record), recovers record boundaries, parses the WARC and embedded
//! HTTP headers, and emits an ordered sequence of index records, each
//! annotated with its byte offset and length in the original file.
//! The records project into the two serialized index forms, CDXJ and
//! pages JSONL, and a datapackage manifest carries the hashes of the
//! three resources of the archive.

pub mod bytes_util;
pub mod datapackage;
pub mod errors;
pub mod indexer;
pub mod timefmt;
