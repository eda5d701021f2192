//! Scanning one WARC record out of a decompressed byte stream.
//!
//! A record is its WARC header block, a payload of the declared length,
//! and, for HTTP-bearing response and revisit records, the HTTP header
//! block at the start of the payload.

use vstd::prelude::*;

use crate::bytes_util::{has_prefix, lit_bytes, starts_with_bytes, subvec};
use crate::errors::IndexingError;
use crate::indexer::header::{
    block_end_from, lemma_block_end_bounds, parse_http_block, parse_warc_block,
    parse_http_headers, parse_warc_headers, read_header_block,
};
use crate::indexer::record::{IndexRecord, RecordData, WarcRecordType};

verus! {

/// Whether a record of this type carries an embedded HTTP header when
/// its WARC `Content-Type` says so.
pub open spec fn http_bearing(t: Option<WarcRecordType>) -> bool {
    t == Some(WarcRecordType::Response) || t == Some(WarcRecordType::Revisit)
}

/// One record scanned from `s` at `start`, on top of the base record
/// `init`: the WARC header block is located and parsed, and for
/// HTTP-bearing records the HTTP header block after it is parsed too.
pub open spec fn scan_record_spec(s: Seq<u8>, start: int, init: RecordData) -> Result<
    RecordData,
    IndexingError,
> {
    match block_end_from(s, start) {
        None => Err(IndexingError::MalformedRecord),
        Some(be) => {
            let block = s.subrange(start, be);
            if !has_prefix(block, lit_bytes("WARC/1.1"@)) {
                Err(IndexingError::MalformedRecord)
            } else {
                match parse_warc_block(
                    block,
                    RecordData { header_length: be - start, ..init },
                ) {
                    None => Err(IndexingError::MalformedHeaderLine),
                    Some(r1) => {
                        if http_bearing(r1.record_type) && r1.is_http {
                            match block_end_from(s, be) {
                                None => Err(IndexingError::MalformedRecord),
                                Some(be2) => parse_http_block(s.subrange(be, be2), r1),
                            }
                        } else {
                            Ok(r1)
                        }
                    },
                }
            }
        },
    }
}

/// Scan the record that starts at `start` into `rec`.
pub fn scan_record(s: &[u8], start: usize, rec: &mut IndexRecord) -> (r: Result<
    (),
    IndexingError,
>)
    requires
        start <= s@.len() < usize::MAX,
    ensures
        match r {
            Ok(()) => scan_record_spec(s@, start as int, old(rec)@) == Ok::<
                RecordData,
                IndexingError,
            >(final(rec)@),
            Err(e) => scan_record_spec(s@, start as int, old(rec)@) == Err::<
                RecordData,
                IndexingError,
            >(e),
        },
{
    let be = match read_header_block(s, start) {
        Some(be) => be,
        None => {
            return Err(IndexingError::MalformedRecord);
        },
    };
    let block = subvec(s, start, be);
    proof {
        reveal_strlit("WARC/1.1");
    }
    let magic = crate::bytes_util::ascii_bytes("WARC/1.1");
    if !starts_with_bytes(block.as_slice(), magic.as_slice()) {
        return Err(IndexingError::MalformedRecord);
    }
    rec.header_length = be - start;
    proof {
        assert(rec@ =~= (RecordData { header_length: be - start, ..old(rec)@ }));
    }
    match parse_warc_headers(block.as_slice(), rec) {
        Ok(()) => {},
        Err(e) => {
            return Err(e);
        },
    }
    let bearing = match rec.record_type {
        Some(WarcRecordType::Response) => true,
        Some(WarcRecordType::Revisit) => true,
        _ => false,
    };
    if bearing && rec.is_http {
        let be2 = match read_header_block(s, be) {
            Some(be2) => be2,
            None => {
                return Err(IndexingError::MalformedRecord);
            },
        };
        let block2 = subvec(s, be, be2);
        match parse_http_headers(block2.as_slice(), rec) {
            Ok(()) => {},
            Err(e) => {
                return Err(e);
            },
        }
    }
    Ok(())
}

/// What a successful scan guarantees of the record it yields, on top of
/// a base record with no content length and no status yet: the header
/// length covers at least the terminator line, the content length is
/// non-negative, the status is absent or a checked three-digit code,
/// and the fields the scan never writes keep their base values.
pub proof fn lemma_scan_ok_fields(s: Seq<u8>, start: int, init: RecordData)
    requires
        init.content_length >= 0,
        init.http_status_code == 0,
    ensures
        scan_record_spec(s, start, init) matches Ok(r) ==> {
            &&& r.header_length >= 2
            &&& r.content_length >= 0
            &&& r.offset == init.offset
            &&& r.length == init.length
            &&& r.file_name == init.file_name
            &&& r.is_page == init.is_page
            &&& (r.http_status_code == 0 || 100 <= r.http_status_code <= 599)
        },
{
    match block_end_from(s, start) {
        None => {},
        Some(be) => {
            lemma_block_end_bounds(s, start);
            let block = s.subrange(start, be);
            if has_prefix(block, lit_bytes("WARC/1.1"@)) {
                let base = RecordData { header_length: be - start, ..init };
                crate::indexer::header::lemma_warc_lines_frame(
                    block,
                    crate::bytes_util::find_from(block, 0, 10) + 1,
                    base,
                );
                match parse_warc_block(block, base) {
                    None => {},
                    Some(r1) => {
                        if http_bearing(r1.record_type) && r1.is_http {
                            match block_end_from(s, be) {
                                None => {},
                                Some(be2) => {
                                    let block2 = s.subrange(be, be2);
                                    match crate::indexer::header::http_status_of(block2) {
                                        None => {},
                                        Some(code) => {
                                            crate::indexer::header::lemma_http_lines_frame(
                                                block2,
                                                crate::bytes_util::find_from(block2, 0, 10) + 1,
                                                RecordData { http_status_code: code, ..r1 },
                                            );
                                        },
                                    }
                                },
                            }
                        }
                    },
                }
            }
        },
    }
}

} // verus!
