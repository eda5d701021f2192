//! The index record: one row of the CDXJ index per retained WARC record.

use vstd::prelude::*;

use crate::bytes_util::lit_bytes;

verus! {

/// The `WARC-Type` values the index understands.
#[derive(Clone, Copy, Debug, PartialEq, Eq, Structural)]
pub enum WarcRecordType {
    Response,
    Revisit,
    Resource,
    Metadata,
}

/// The mathematical content of an [`IndexRecord`].
#[verifier::ext_equal]
pub ghost struct RecordData {
    /// Byte offset of the record in the original file.
    pub offset: int,
    /// Byte count of the record in the original file.
    pub length: int,
    /// Value of the WARC `Content-Length` header.
    pub content_length: int,
    /// Byte count of the WARC header block, terminator line included.
    pub header_length: int,
    /// Value of `WARC-Payload-Digest`.
    pub digest: Seq<u8>,
    /// Value of `WARC-Date`.
    pub timestamp: Seq<u8>,
    /// Value of `WARC-Type`, when it is one the index understands.
    pub record_type: Option<WarcRecordType>,
    /// Value of `WARC-Target-URI`.
    pub url: Seq<u8>,
    pub is_page: bool,
    /// Whether the WARC `Content-Type` begins with `application/http`.
    pub is_http: bool,
    /// HTTP status code in `[100, 599]`, or `0` when there is none.
    pub http_status_code: int,
    /// HTTP `Content-Type` of the embedded response, possibly empty.
    pub mime_type: Seq<u8>,
    /// Final path component of the source file.
    pub file_name: Seq<u8>,
}

/// One emitted row of the index: a WARC record together with where it
/// sits in the original (possibly gzip-compressed) file.
#[derive(Debug, Clone)]
pub struct IndexRecord {
    pub offset: usize,
    pub length: usize,
    pub content_length: usize,
    pub header_length: usize,
    pub digest: Vec<u8>,
    pub timestamp: Vec<u8>,
    pub record_type: Option<WarcRecordType>,
    pub url: Vec<u8>,
    pub is_page: bool,
    pub is_http: bool,
    pub http_status_code: usize,
    pub mime_type: Vec<u8>,
    pub file_name: Vec<u8>,
}

impl View for IndexRecord {
    type V = RecordData;

    open spec fn view(&self) -> RecordData {
        RecordData {
            offset: self.offset as int,
            length: self.length as int,
            content_length: self.content_length as int,
            header_length: self.header_length as int,
            digest: self.digest@,
            timestamp: self.timestamp@,
            record_type: self.record_type,
            url: self.url@,
            is_page: self.is_page,
            is_http: self.is_http,
            http_status_code: self.http_status_code as int,
            mime_type: self.mime_type@,
            file_name: self.file_name@,
        }
    }
}

/// The empty record every scan starts from.
pub open spec fn empty_record(file_name: Seq<u8>) -> RecordData {
    RecordData {
        offset: 0,
        length: 0,
        content_length: 0,
        header_length: 0,
        digest: Seq::empty(),
        timestamp: Seq::empty(),
        record_type: None,
        url: Seq::empty(),
        is_page: false,
        is_http: false,
        http_status_code: 0,
        mime_type: Seq::empty(),
        file_name: file_name,
    }
}

/// Whether `mime` is one of the media types that make a page.
pub open spec fn page_mime(mime: Seq<u8>) -> bool {
    ||| mime == lit_bytes("text/html"@)
    ||| mime == lit_bytes("application/xhtml+xml"@)
    ||| mime == lit_bytes("text/plain"@)
}

/// A record is a page exactly when its media type is a page media type
/// and its HTTP status lies in the success range.
pub open spec fn is_page_spec(mime: Seq<u8>, status: int) -> bool {
    page_mime(mime) && 200 <= status <= 299
}

/// The indexer's completeness filter: a record is retained exactly when
/// its type is present, its media type is non-empty, and its HTTP status
/// is set.
pub open spec fn retained(r: RecordData) -> bool {
    r.record_type is Some && r.mime_type.len() > 0 && r.http_status_code != 0
}

impl IndexRecord {
    /// A fresh record with every field empty or zero.
    pub fn new() -> (r: Self)
        ensures
            r@ == empty_record(Seq::<u8>::empty()),
    {
        let r = IndexRecord {
            offset: 0,
            length: 0,
            content_length: 0,
            header_length: 0,
            digest: Vec::new(),
            timestamp: Vec::new(),
            record_type: None,
            url: Vec::new(),
            is_page: false,
            is_http: false,
            http_status_code: 0,
            mime_type: Vec::new(),
            file_name: Vec::new(),
        };
        proof {
            assert(r@ =~= empty_record(Seq::<u8>::empty()));
        }
        r
    }

    /// Whether this record is retained by the indexer's filter.
    pub fn is_retained(&self) -> (r: bool)
        ensures
            r == retained(self@),
    {
        self.record_type.is_some() && self.mime_type.len() > 0 && self.http_status_code != 0
    }
}

/// Decide whether `mime` names a page media type.
pub fn is_page_mime_type(mime: &[u8]) -> (r: bool)
    ensures
        r == page_mime(mime@),
{
    proof {
        reveal_strlit("text/html");
        reveal_strlit("application/xhtml+xml");
        reveal_strlit("text/plain");
    }
    let html = crate::bytes_util::ascii_bytes("text/html");
    let xhtml = crate::bytes_util::ascii_bytes("application/xhtml+xml");
    let plain = crate::bytes_util::ascii_bytes("text/plain");
    crate::bytes_util::bytes_eq(mime, html.as_slice()) || crate::bytes_util::bytes_eq(
        mime,
        xhtml.as_slice(),
    ) || crate::bytes_util::bytes_eq(mime, plain.as_slice())
}

} // verus!
