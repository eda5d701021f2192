//! The two header grammars of a WARC record.
//!
//! A header block is a run of `\r\n`-terminated lines closed by an empty
//! line.  Every line after the first is split at its first `:` into a
//! lowercased key and a trimmed value; the first line is the grammar
//! marker (`WARC/1.1` or the HTTP status line) and is skipped.

use vstd::prelude::*;

use crate::bytes_util::{
    all_digits, ascii_lower, dec_val, find_byte_from, find_from, has_prefix, lemma_find_from,
    lit_bytes, lower_bytes, parse_decimal, parse_decimal_bytes, subvec, trim_ws, trim_ws_bytes,
};
use crate::errors::IndexingError;
use crate::indexer::record::{IndexRecord, RecordData, WarcRecordType};

verus! {

/// Where the header block that starts at `ls` ends: one past its
/// terminating empty `\r\n` line, or `None` when the bytes run out
/// before such a line.
pub open spec fn block_end_from(s: Seq<u8>, ls: int) -> Option<int>
    decreases s.len() - ls,
    via block_end_from_decreases
{
    if ls < 0 || ls >= s.len() {
        None
    } else {
        let le = find_from(s, ls, 10);
        if le < s.len() && le == ls + 1 && s[ls] == 13 {
            Some(ls + 2)
        } else if le >= s.len() {
            None
        } else {
            block_end_from(s, le + 1)
        }
    }
}

#[via_fn]
proof fn block_end_from_decreases(s: Seq<u8>, ls: int) {
    if 0 <= ls && ls < s.len() {
        lemma_find_from(s, ls, 10);
    }
}

pub proof fn lemma_block_end_bounds(s: Seq<u8>, ls: int)
    ensures
        block_end_from(s, ls) matches Some(e) ==> ls + 2 <= e <= s.len(),
    decreases s.len() - ls,
{
    if 0 <= ls && ls < s.len() {
        lemma_find_from(s, ls, 10);
        let le = find_from(s, ls, 10);
        if !(le < s.len() && le == ls + 1 && s[ls] == 13) && le < s.len() {
            lemma_block_end_bounds(s, le + 1);
        }
    }
}

/// Find the end of the header block that starts at `start`, reading
/// line by line until the empty line that closes the block.
pub fn read_header_block(s: &[u8], start: usize) -> (r: Option<usize>)
    requires
        start <= s@.len() < usize::MAX,
    ensures
        match r {
            Some(e) => block_end_from(s@, start as int) == Some(e as int) && start + 2 <= e
                <= s@.len(),
            None => block_end_from(s@, start as int) is None,
        },
{
    let mut ls: usize = start;
    loop
        invariant
            ls <= s@.len() < usize::MAX,
            block_end_from(s@, start as int) == block_end_from(s@, ls as int),
        decreases s@.len() - ls,
    {
        if ls >= s.len() {
            return None;
        }
        let le = find_byte_from(s, ls, 10);
        proof {
            lemma_find_from(s@, ls as int, 10);
        }
        if le < s.len() && le == ls + 1 && s[ls] == 13 {
            proof {
                lemma_block_end_bounds(s@, start as int);
            }
            return Some(ls + 2);
        }
        if le >= s.len() {
            return None;
        }
        ls = le + 1;
    }
}

/// The line that starts at `ls`: the bytes up to the next `\n`, with a
/// trailing `\r` stripped.
pub open spec fn line_at(s: Seq<u8>, ls: int) -> Seq<u8> {
    let le = find_from(s, ls, 10);
    let raw = s.subrange(ls, le);
    if raw.len() > 0 && raw[raw.len() - 1] == 13 {
        raw.drop_last()
    } else {
        raw
    }
}

/// Split a header line at its first `:` into a lowercased key and a
/// trimmed value, or `None` when the line has no `:`.
pub open spec fn split_colon(line: Seq<u8>) -> Option<(Seq<u8>, Seq<u8>)> {
    let c = find_from(line, 0, 58);
    if c == line.len() {
        None
    } else {
        Some(
            (ascii_lower(line.subrange(0, c)), trim_ws(line.subrange(c + 1, line.len() as int))),
        )
    }
}

/// The record type a `WARC-Type` value names, or `None` for any other
/// value.
pub open spec fn warc_type_of(value: Seq<u8>) -> Option<WarcRecordType> {
    if value == lit_bytes("response"@) {
        Some(WarcRecordType::Response)
    } else if value == lit_bytes("revisit"@) {
        Some(WarcRecordType::Revisit)
    } else if value == lit_bytes("resource"@) {
        Some(WarcRecordType::Resource)
    } else if value == lit_bytes("metadata"@) {
        Some(WarcRecordType::Metadata)
    } else {
        None
    }
}

/// What one WARC header field does to the record under construction.
/// `None` reports a `Content-Length` that is not a decimal integer.
pub open spec fn apply_warc_field(key: Seq<u8>, value: Seq<u8>, r: RecordData) -> Option<
    RecordData,
> {
    if key == lit_bytes("content-length"@) {
        match parse_decimal(value) {
            Some(n) => Some(RecordData { content_length: n as int, ..r }),
            None => None,
        }
    } else if key == lit_bytes("warc-payload-digest"@) {
        Some(RecordData { digest: value, ..r })
    } else if key == lit_bytes("warc-date"@) {
        Some(RecordData { timestamp: value, ..r })
    } else if key == lit_bytes("warc-target-uri"@) {
        Some(RecordData { url: value, ..r })
    } else if key == lit_bytes("warc-type"@) {
        Some(RecordData { record_type: warc_type_of(value), ..r })
    } else if key == lit_bytes("content-type"@) {
        if has_prefix(value, lit_bytes("application/http"@)) {
            Some(RecordData { is_http: true, ..r })
        } else {
            Some(r)
        }
    } else {
        Some(r)
    }
}

/// Apply the WARC header lines from `ls` on to `r`.  `None` reports a
/// malformed line.
pub open spec fn apply_warc_lines(s: Seq<u8>, ls: int, r: RecordData) -> Option<RecordData>
    decreases s.len() - ls + 1,
    via apply_warc_lines_decreases
{
    if ls < 0 || ls >= s.len() {
        Some(r)
    } else {
        let le = find_from(s, ls, 10);
        let line = line_at(s, ls);
        let step = if line.len() == 0 {
            Some(r)
        } else {
            match split_colon(line) {
                None => None,
                Some(kv) => apply_warc_field(kv.0, kv.1, r),
            }
        };
        match step {
            None => None,
            Some(r2) => apply_warc_lines(s, le + 1, r2),
        }
    }
}

#[via_fn]
proof fn apply_warc_lines_decreases(s: Seq<u8>, ls: int, r: RecordData) {
    if 0 <= ls && ls < s.len() {
        lemma_find_from(s, ls, 10);
    }
}

/// Parse a WARC header block into `r`, skipping the grammar marker on
/// the first line.
pub open spec fn parse_warc_block(block: Seq<u8>, r: RecordData) -> Option<RecordData> {
    apply_warc_lines(block, find_from(block, 0, 10) + 1, r)
}

/// What one HTTP header field does to the record: only `Content-Type`
/// is read, as the media type of the embedded response.
pub open spec fn apply_http_field(key: Seq<u8>, value: Seq<u8>, r: RecordData) -> RecordData {
    if key == lit_bytes("content-type"@) {
        RecordData { mime_type: value, ..r }
    } else {
        r
    }
}

/// Apply the HTTP header lines from `ls` on to `r`.
pub open spec fn apply_http_lines(s: Seq<u8>, ls: int, r: RecordData) -> Option<RecordData>
    decreases s.len() - ls + 1,
    via apply_http_lines_decreases
{
    if ls < 0 || ls >= s.len() {
        Some(r)
    } else {
        let le = find_from(s, ls, 10);
        let line = line_at(s, ls);
        let step = if line.len() == 0 {
            Some(r)
        } else {
            match split_colon(line) {
                None => None,
                Some(kv) => Some(apply_http_field(kv.0, kv.1, r)),
            }
        };
        match step {
            None => None,
            Some(r2) => apply_http_lines(s, le + 1, r2),
        }
    }
}

#[via_fn]
proof fn apply_http_lines_decreases(s: Seq<u8>, ls: int, r: RecordData) {
    if 0 <= ls && ls < s.len() {
        lemma_find_from(s, ls, 10);
    }
}

/// The status code on the first line of an HTTP header block: the three
/// ASCII digits at bytes 9 to 11, when they form a number in
/// `[100, 599]`.
pub open spec fn http_status_of(block: Seq<u8>) -> Option<int> {
    if block.len() < 12 {
        None
    } else {
        let st = block.subrange(9, 12);
        if all_digits(st) && 100 <= dec_val(st) <= 599 {
            Some(dec_val(st) as int)
        } else {
            None
        }
    }
}

/// Parse an embedded HTTP header block into `r`: the status code from
/// the status line, then the header fields.
pub open spec fn parse_http_block(block: Seq<u8>, r: RecordData) -> Result<
    RecordData,
    IndexingError,
> {
    match http_status_of(block) {
        None => Err(IndexingError::BadStatusLine),
        Some(code) => match apply_http_lines(
            block,
            find_from(block, 0, 10) + 1,
            RecordData { http_status_code: code, ..r },
        ) {
            None => Err(IndexingError::MalformedHeaderLine),
            Some(r2) => Ok(r2),
        },
    }
}

/// Parse the WARC header block `block` into `rec`.
#[verifier::loop_isolation(false)]
pub fn parse_warc_headers(block: &[u8], rec: &mut IndexRecord) -> (r: Result<(), IndexingError>)
    requires
        block@.len() < usize::MAX,
    ensures
        match r {
            Ok(()) => parse_warc_block(block@, old(rec)@) == Some(final(rec)@),
            Err(e) => parse_warc_block(block@, old(rec)@) is None
                && e == IndexingError::MalformedHeaderLine,
        },
{
    let ghost r0 = rec@;
    let fl = find_byte_from(block, 0, 10);
    proof {
        lemma_find_from(block@, 0, 10);
    }
    if fl == block.len() {
        return Ok(());
    }
    let mut ls: usize = fl + 1;
    while ls < block.len()
        invariant
            ls <= block@.len() + 1,
            block@.len() < usize::MAX,
            parse_warc_block(block@, r0) == apply_warc_lines(block@, ls as int, rec@),
        decreases block@.len() + 1 - ls,
    {
        let le = find_byte_from(block, ls, 10);
        proof {
            lemma_find_from(block@, ls as int, 10);
        }
        let ghost r_in = rec@;
        let mut ce = le;
        if le > ls && block[le - 1] == 13 {
            ce = le - 1;
        }
        proof {
            if le > ls && block@[le - 1] == 13 {
                assert(block@.subrange(ls as int, le as int).drop_last() =~= block@.subrange(
                    ls as int,
                    le - 1,
                ));
            }
            assert(line_at(block@, ls as int) == block@.subrange(ls as int, ce as int));
        }
        if ce > ls {
            let line = subvec(block, ls, ce);
            let c = find_byte_from(line.as_slice(), 0, 58);
            proof {
                lemma_find_from(line@, 0, 58);
            }
            if c == line.len() {
                proof {
                    assert(split_colon(line@) is None);
                    assert(apply_warc_lines(block@, ls as int, rec@) is None);
                }
                return Err(IndexingError::MalformedHeaderLine);
            }
            let key = lower_bytes(subvec(line.as_slice(), 0, c).as_slice());
            let value = trim_ws_bytes(subvec(line.as_slice(), c + 1, line.len()).as_slice());
            proof {
                assert(split_colon(line@) == Some((key@, value@)));
            }
            proof {
                reveal_strlit("content-length");
                reveal_strlit("warc-payload-digest");
                reveal_strlit("warc-date");
                reveal_strlit("warc-target-uri");
                reveal_strlit("warc-type");
                reveal_strlit("content-type");
                reveal_strlit("application/http");
                reveal_strlit("response");
                reveal_strlit("revisit");
                reveal_strlit("resource");
                reveal_strlit("metadata");
            }
            let k_content_length = crate::bytes_util::ascii_bytes("content-length");
            let k_digest = crate::bytes_util::ascii_bytes("warc-payload-digest");
            let k_date = crate::bytes_util::ascii_bytes("warc-date");
            let k_uri = crate::bytes_util::ascii_bytes("warc-target-uri");
            let k_type = crate::bytes_util::ascii_bytes("warc-type");
            let k_ctype = crate::bytes_util::ascii_bytes("content-type");
            if crate::bytes_util::bytes_eq(key.as_slice(), k_content_length.as_slice()) {
                match parse_decimal_bytes(value.as_slice()) {
                    Some(n) => {
                        rec.content_length = n;
                    },
                    None => {
                        proof {
                            assert(apply_warc_field(key@, value@, r_in) is None);
                            assert(apply_warc_lines(block@, ls as int, rec@) is None);
                        }
                        return Err(IndexingError::MalformedHeaderLine);
                    },
                }
            } else if crate::bytes_util::bytes_eq(key.as_slice(), k_digest.as_slice()) {
                rec.digest = value;
            } else if crate::bytes_util::bytes_eq(key.as_slice(), k_date.as_slice()) {
                rec.timestamp = value;
            } else if crate::bytes_util::bytes_eq(key.as_slice(), k_uri.as_slice()) {
                rec.url = value;
            } else if crate::bytes_util::bytes_eq(key.as_slice(), k_type.as_slice()) {
                let v_response = crate::bytes_util::ascii_bytes("response");
                let v_revisit = crate::bytes_util::ascii_bytes("revisit");
                let v_resource = crate::bytes_util::ascii_bytes("resource");
                let v_metadata = crate::bytes_util::ascii_bytes("metadata");
                if crate::bytes_util::bytes_eq(value.as_slice(), v_response.as_slice()) {
                    rec.record_type = Some(WarcRecordType::Response);
                } else if crate::bytes_util::bytes_eq(value.as_slice(), v_revisit.as_slice()) {
                    rec.record_type = Some(WarcRecordType::Revisit);
                } else if crate::bytes_util::bytes_eq(value.as_slice(), v_resource.as_slice()) {
                    rec.record_type = Some(WarcRecordType::Resource);
                } else if crate::bytes_util::bytes_eq(value.as_slice(), v_metadata.as_slice()) {
                    rec.record_type = Some(WarcRecordType::Metadata);
                } else {
                    rec.record_type = None;
                }
            } else if crate::bytes_util::bytes_eq(key.as_slice(), k_ctype.as_slice()) {
                let apphttp = crate::bytes_util::ascii_bytes("application/http");
                if crate::bytes_util::starts_with_bytes(value.as_slice(), apphttp.as_slice()) {
                    rec.is_http = true;
                }
            }
            proof {
                assert(apply_warc_field(key@, value@, r_in) == Some(rec@));
            }
        }
        proof {
            assert(apply_warc_lines(block@, ls as int, r_in) == apply_warc_lines(
                block@,
                le + 1,
                rec@,
            ));
        }
        ls = le + 1;
    }
    Ok(())
}

/// Parse the embedded HTTP header block `block` into `rec`.
#[verifier::loop_isolation(false)]
pub fn parse_http_headers(block: &[u8], rec: &mut IndexRecord) -> (r: Result<(), IndexingError>)
    requires
        block@.len() < usize::MAX,
    ensures
        match r {
            Ok(()) => parse_http_block(block@, old(rec)@) == Ok::<RecordData, IndexingError>(
                final(rec)@,
            ),
            Err(e) => parse_http_block(block@, old(rec)@) == Err::<RecordData, IndexingError>(e),
        },
{
    let ghost r0 = rec@;
    if block.len() < 12 {
        return Err(IndexingError::BadStatusLine);
    }
    let st = subvec(block, 9, 12);
    let code = match parse_decimal_bytes(st.as_slice()) {
        Some(n) => n,
        None => {
            return Err(IndexingError::BadStatusLine);
        },
    };
    if code < 100 || code > 599 {
        return Err(IndexingError::BadStatusLine);
    }
    rec.http_status_code = code;
    proof {
        assert(http_status_of(block@) == Some(code as int));
        assert(rec@ =~= RecordData { http_status_code: code as int, ..r0 });
    }
    let ghost r1 = rec@;
    let fl = find_byte_from(block, 0, 10);
    proof {
        lemma_find_from(block@, 0, 10);
    }
    if fl == block.len() {
        return Ok(());
    }
    let mut ls: usize = fl + 1;
    while ls < block.len()
        invariant
            ls <= block@.len() + 1,
            block@.len() < usize::MAX,
            http_status_of(block@) == Some(r1.http_status_code),
            r1 == (RecordData { http_status_code: r1.http_status_code, ..r0 }),
            apply_http_lines(block@, find_from(block@, 0, 10) + 1, r1) == apply_http_lines(
                block@,
                ls as int,
                rec@,
            ),
        decreases block@.len() + 1 - ls,
    {
        let le = find_byte_from(block, ls, 10);
        proof {
            lemma_find_from(block@, ls as int, 10);
        }
        let ghost r_in = rec@;
        let mut ce = le;
        if le > ls && block[le - 1] == 13 {
            ce = le - 1;
        }
        proof {
            if le > ls && block@[le - 1] == 13 {
                assert(block@.subrange(ls as int, le as int).drop_last() =~= block@.subrange(
                    ls as int,
                    le - 1,
                ));
            }
            assert(line_at(block@, ls as int) == block@.subrange(ls as int, ce as int));
        }
        if ce > ls {
            let line = subvec(block, ls, ce);
            let c = find_byte_from(line.as_slice(), 0, 58);
            proof {
                lemma_find_from(line@, 0, 58);
            }
            if c == line.len() {
                proof {
                    assert(split_colon(line@) is None);
                    assert(apply_http_lines(block@, ls as int, rec@) is None);
                }
                return Err(IndexingError::MalformedHeaderLine);
            }
            let key = lower_bytes(subvec(line.as_slice(), 0, c).as_slice());
            let value = trim_ws_bytes(subvec(line.as_slice(), c + 1, line.len()).as_slice());
            proof {
                assert(split_colon(line@) == Some((key@, value@)));
                reveal_strlit("content-type");
            }
            let k_ctype = crate::bytes_util::ascii_bytes("content-type");
            if crate::bytes_util::bytes_eq(key.as_slice(), k_ctype.as_slice()) {
                rec.mime_type = value;
            }
            proof {
                assert(apply_http_field(key@, value@, r_in) == rec@);
            }
        }
        proof {
            assert(apply_http_lines(block@, ls as int, r_in) == apply_http_lines(
                block@,
                le + 1,
                rec@,
            ));
        }
        ls = le + 1;
    }
    Ok(())
}

/// The WARC header lines touch only the fields their keys name: the
/// frame fields of the record pass through unchanged, and a
/// non-negative content length stays non-negative.
pub proof fn lemma_warc_lines_frame(s: Seq<u8>, ls: int, r: RecordData)
    ensures
        apply_warc_lines(s, ls, r) matches Some(r2) ==> {
            &&& r2.offset == r.offset
            &&& r2.length == r.length
            &&& r2.header_length == r.header_length
            &&& r2.http_status_code == r.http_status_code
            &&& r2.is_page == r.is_page
            &&& r2.file_name == r.file_name
            &&& r2.mime_type == r.mime_type
            &&& (r.content_length >= 0 ==> r2.content_length >= 0)
        },
    decreases s.len() - ls + 1,
{
    if 0 <= ls && ls < s.len() {
        lemma_find_from(s, ls, 10);
        let le = find_from(s, ls, 10);
        let line = line_at(s, ls);
        let step = if line.len() == 0 {
            Some(r)
        } else {
            match split_colon(line) {
                None => None,
                Some(kv) => apply_warc_field(kv.0, kv.1, r),
            }
        };
        match step {
            None => {},
            Some(r2) => {
                lemma_warc_lines_frame(s, le + 1, r2);
            },
        }
    }
}

/// The HTTP header lines touch only the media type.
pub proof fn lemma_http_lines_frame(s: Seq<u8>, ls: int, r: RecordData)
    ensures
        apply_http_lines(s, ls, r) matches Some(r2) ==> r2 == (RecordData {
            mime_type: r2.mime_type,
            ..r
        }),
    decreases s.len() - ls + 1,
{
    if 0 <= ls && ls < s.len() {
        lemma_find_from(s, ls, 10);
        let le = find_from(s, ls, 10);
        let line = line_at(s, ls);
        let step = if line.len() == 0 {
            Some(r)
        } else {
            match split_colon(line) {
                None => None,
                Some(kv) => Some(apply_http_field(kv.0, kv.1, r)),
            }
        };
        match step {
            None => {},
            Some(r2) => {
                lemma_http_lines_frame(s, le + 1, r2);
            },
        }
    }
}

} // verus!
