//! A page entry: one line of a pages file, built from a single record's
//! type, date, target URL and embedded HTTP header block.

use vstd::prelude::*;

use crate::bytes_util::{
    append_bytes, append_lit, dec_digits, lit_bytes, push_decimal,
};
use crate::errors::IndexingError;
use crate::indexer::header::parse_http_block;
use crate::indexer::record::{empty_record, page_mime, IndexRecord, WarcRecordType};
use crate::indexer::record_url::{url_parts_of, RecordUrl};
use crate::timefmt::{to_utc_rfc3339, utc_rfc3339_spec};

verus! {

/// Whether a record of this type can appear in the pages file.
pub open spec fn pageable_type(t: Option<WarcRecordType>) -> bool {
    ||| t == Some(WarcRecordType::Response)
    ||| t == Some(WarcRecordType::Revisit)
    ||| t == Some(WarcRecordType::Resource)
}

/// A page entry of the pages file.
#[derive(Debug)]
pub struct PageRecord {
    /// A unique incrementing counter identifying the page record.
    pub id: usize,
    /// The snapshot instant, normalized to UTC in RFC 3339 form.
    pub timestamp: Vec<u8>,
    /// The URL that was archived.
    pub url: RecordUrl,
}

impl PageRecord {
    /// Build the page entry of one record from its `WARC-Type`, its
    /// `WARC-Date`, its `WARC-Target-URI` and the HTTP header block at
    /// the start of its payload.
    ///
    /// Only a `response`, `revisit` or `resource` record whose embedded
    /// response is a page media type with status 200 yields an entry;
    /// any other record is reported as `UnindexableRecordType`.  The
    /// date and the URL must parse, else `BadTimestamp` or `BadUrl`
    /// comes back.
    pub fn new(
        warc_type: Option<WarcRecordType>,
        date: &[u8],
        target_uri: &[u8],
        http_block: &[u8],
        record_count: usize,
    ) -> (r: Result<Self, IndexingError>)
        requires
            http_block@.len() < usize::MAX,
        ensures
            match r {
                Ok(p) => {
                    &&& parse_http_block(http_block@, empty_record(Seq::empty())) matches Ok(h)
                        && page_mime(h.mime_type) && h.http_status_code == 200
                    &&& pageable_type(warc_type)
                    &&& utc_rfc3339_spec(date@) == Some(p.timestamp@)
                    &&& url_parts_of(target_uri@) == Some(
                        (p.url@.url, p.url@.host, p.url@.from_path),
                    )
                    &&& p.id == record_count
                },
                Err(e) => match parse_http_block(http_block@, empty_record(Seq::empty())) {
                    Err(e2) => e == e2,
                    Ok(h) => if !(pageable_type(warc_type) && page_mime(h.mime_type)
                        && h.http_status_code == 200) {
                        e == IndexingError::UnindexableRecordType
                    } else if utc_rfc3339_spec(date@) is None {
                        e == IndexingError::BadTimestamp
                    } else {
                        url_parts_of(target_uri@) is None && e == IndexingError::BadUrl
                    },
                },
            },
    {
        let mut probe = IndexRecord::new();
        match crate::indexer::header::parse_http_headers(http_block, &mut probe) {
            Ok(()) => {},
            Err(e) => {
                return Err(e);
            },
        }
        let pageable = match warc_type {
            Some(WarcRecordType::Response) => true,
            Some(WarcRecordType::Revisit) => true,
            Some(WarcRecordType::Resource) => true,
            _ => false,
        };
        if !(pageable && crate::indexer::record::is_page_mime_type(probe.mime_type.as_slice())
            && probe.http_status_code == 200) {
            return Err(IndexingError::UnindexableRecordType);
        }
        let timestamp = match to_utc_rfc3339(date) {
            Some(t) => t,
            None => {
                return Err(IndexingError::BadTimestamp);
            },
        };
        let url = match RecordUrl::new(target_uri) {
            Ok(u) => u,
            Err(e) => {
                return Err(e);
            },
        };
        Ok(PageRecord { id: record_count, timestamp, url })
    }

    /// Serialise the page entry to its JSON object.
    pub fn to_json_string(&self) -> (r: Vec<u8>)
        ensures
            r@ == lit_bytes("{\"id\":"@) + dec_digits(self.id as nat) + lit_bytes(
                ",\"ts\":\""@,
            ) + self.timestamp@ + lit_bytes("\",\"url\":\""@) + self.url@.url + lit_bytes("\"}"@),
    {
        proof {
            reveal_strlit("{\"id\":");
            reveal_strlit(",\"ts\":\"");
            reveal_strlit("\",\"url\":\"");
            reveal_strlit("\"}");
        }
        let mut out: Vec<u8> = Vec::new();
        append_lit(&mut out, "{\"id\":");
        push_decimal(&mut out, self.id);
        append_lit(&mut out, ",\"ts\":\"");
        append_bytes(&mut out, self.timestamp.as_slice());
        append_lit(&mut out, "\",\"url\":\"");
        append_bytes(&mut out, self.url.url.as_slice());
        append_lit(&mut out, "\"}");
        proof {
            assert(out@ =~= lit_bytes("{\"id\":"@) + dec_digits(self.id as nat) + lit_bytes(
                ",\"ts\":\""@,
            ) + self.timestamp@ + lit_bytes("\",\"url\":\""@) + self.url@.url + lit_bytes(
                "\"}"@,
            ));
        }
        out
    }
}

} // verus!
