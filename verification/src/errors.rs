//! Error kinds raised while indexing a WARC file.

use vstd::prelude::*;

verus! {

/// Why indexing a WARC file stopped.
///
/// An error inside a single record is fatal to the whole indexing run:
/// once a record cannot be parsed, the offsets of the records after it
/// are no longer trustworthy.
#[derive(Clone, Copy, Debug, PartialEq, Eq, Structural)]
pub enum IndexingError {
    /// A file read failed.
    IoError,
    /// A gzip member could not be decoded.
    FrameDecodeError,
    /// A decoded frame does not start with `WARC/1.1`, or the record
    /// runs past the end of the file.
    MalformedRecord,
    /// A header line lacks `:`, or holds a non-integer `Content-Length`.
    MalformedHeaderLine,
    /// The HTTP status code is not a three-digit decimal in `[100, 599]`.
    BadStatusLine,
    /// A URL fails to parse or exposes no host.
    BadUrl,
    /// A `WARC-Date` fails RFC 3339 parsing.
    BadTimestamp,
    /// A record whose type, media type or status does not make a page.
    UnindexableRecordType,
}

} // verus!
