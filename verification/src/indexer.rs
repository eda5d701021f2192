//! The WARC indexing subsystem: a streaming scanner that walks a WARC
//! file (plain, or gzip with one member per record), recovers record
//! boundaries, parses WARC and embedded HTTP headers, and emits an
//! ordered sequence of index records annotated with the byte offset and
//! length of each record in the original file.

use vstd::prelude::*;

pub mod cdxj;
pub mod gzip;
pub mod header;
pub mod page_record;
pub mod pages;
pub mod record;
pub mod record_url;
pub mod scan;
pub mod surt;

pub use cdxj::to_cdxj_string;
pub use pages::to_pages_json_string;
pub use record::{IndexRecord, RecordData, WarcRecordType};
pub use surt::create_surt;

use crate::bytes_util::lit_bytes;
use crate::errors::IndexingError;
use crate::indexer::gzip::{decode_gzip_member, gunzip_member};
use crate::indexer::record::{empty_record, is_page_spec, retained};
use crate::indexer::scan::{scan_record, scan_record_spec};

verus! {

/// A scanned record finished into an emitted row: stamped with its
/// offset and byte count in the original file, and with `is_page`
/// derived from the media type and the status code.
pub open spec fn finish_record(r: RecordData, offset: int, length: int) -> RecordData {
    RecordData {
        offset: offset,
        length: length,
        is_page: is_page_spec(r.mime_type, r.http_status_code),
        ..r
    }
}

/// Whether the file name carries the case-sensitive `.gz` extension.
pub open spec fn has_gz_ext(name: Seq<u8>) -> bool {
    name.len() >= 4 && name.subrange(name.len() - 3, name.len() as int) == lit_bytes(".gz"@)
}

/// Decide whether `name` carries the `.gz` extension.
pub fn has_gz_extension(name: &[u8]) -> (r: bool)
    ensures
        r == has_gz_ext(name@),
{
    proof {
        reveal_strlit(".gz");
    }
    if name.len() < 4 {
        return false;
    }
    let n = name.len();
    let r = name[n - 3] == 46 && name[n - 2] == 103 && name[n - 1] == 122;
    proof {
        let sub = name@.subrange(n - 3, n as int);
        assert(sub[0] == name@[n - 3] && sub[1] == name@[n - 2] && sub[2] == name@[n - 1]);
        assert(lit_bytes(".gz"@)[0] == 46 && lit_bytes(".gz"@)[1] == 103 && lit_bytes(".gz"@)[2]
            == 122);
        if r {
            assert(sub =~= lit_bytes(".gz"@));
        }
    }
    r
}

/// The records of the plain (uncompressed) WARC `s` from cursor `o` on:
/// each record spans its header block, its declared content length and
/// the four terminator bytes, and the retained ones are emitted in file
/// order.
pub open spec fn index_plain(s: Seq<u8>, name: Seq<u8>, o: int) -> Result<
    Seq<RecordData>,
    IndexingError,
>
    decreases s.len() - o,
    via index_plain_decreases
{
    if o < 0 || o >= s.len() {
        Ok(Seq::empty())
    } else {
        match scan_record_spec(s, o, empty_record(name)) {
            Err(e) => Err(e),
            Ok(r) => {
                let rlen = r.header_length + r.content_length + 4;
                if o + rlen > s.len() {
                    Err(IndexingError::MalformedRecord)
                } else {
                    let r2 = finish_record(r, o, rlen);
                    match index_plain(s, name, o + rlen) {
                        Err(e) => Err(e),
                        Ok(rest) => Ok(
                            if retained(r2) {
                                seq![r2] + rest
                            } else {
                                rest
                            },
                        ),
                    }
                }
            },
        }
    }
}

#[via_fn]
proof fn index_plain_decreases(s: Seq<u8>, name: Seq<u8>, o: int) {
    if 0 <= o && o < s.len() {
        crate::indexer::scan::lemma_scan_ok_fields(s, o, empty_record(name));
    }
}

/// The records of the gzipped WARC `s` from cursor `o` on: each gzip
/// member holds exactly one record, whose emitted offset and length are
/// the member's place in the compressed file.
pub open spec fn index_gzip(s: Seq<u8>, name: Seq<u8>, o: int) -> Result<
    Seq<RecordData>,
    IndexingError,
>
    decreases s.len() - o,
    via index_gzip_decreases
{
    if o < 0 || o >= s.len() {
        Ok(Seq::empty())
    } else {
        match gunzip_member(s, o) {
            None => Err(IndexingError::FrameDecodeError),
            Some(dc) => {
                let decoded = dc.0;
                let consumed = dc.1;
                if consumed <= 0 || o + consumed > s.len() {
                    Err(IndexingError::FrameDecodeError)
                } else {
                    match scan_record_spec(decoded, 0, empty_record(name)) {
                        Err(e) => Err(e),
                        Ok(r) => {
                            if decoded.len() != r.header_length + r.content_length + 4 {
                                Err(IndexingError::MalformedRecord)
                            } else {
                                let r2 = finish_record(r, o, consumed);
                                match index_gzip(s, name, o + consumed) {
                                    Err(e) => Err(e),
                                    Ok(rest) => Ok(
                                        if retained(r2) {
                                            seq![r2] + rest
                                        } else {
                                            rest
                                        },
                                    ),
                                }
                            }
                        },
                    }
                }
            },
        }
    }
}

#[via_fn]
proof fn index_gzip_decreases(s: Seq<u8>, name: Seq<u8>, o: int) {
}

/// The records of the WARC `s` named `name`: walked member by member
/// when the name carries the `.gz` extension, in one pass otherwise.
pub open spec fn index_spec(s: Seq<u8>, name: Seq<u8>) -> Result<Seq<RecordData>, IndexingError> {
    if has_gz_ext(name) {
        index_gzip(s, name, 0)
    } else {
        index_plain(s, name, 0)
    }
}

/// What holds of every emitted record sequence: every record is
/// retained, lies between `lo` and `hi` in the file, carries the source
/// file's name, has `is_page` derived from media type and status, and
/// the sequence is ordered by offset with non-overlapping extents.
pub open spec fn record_seq_props(rs: Seq<RecordData>, lo: int, hi: int, name: Seq<u8>) -> bool {
    &&& forall|i: int|
        0 <= i < rs.len() ==> {
            let r = #[trigger] rs[i];
            &&& retained(r)
            &&& lo <= r.offset
            &&& r.length > 0
            &&& r.offset + r.length <= hi
            &&& r.file_name == name
            &&& r.is_page == is_page_spec(r.mime_type, r.http_status_code)
        }
    &&& forall|i: int, j: int|
        0 <= i && i + 1 == j && j < rs.len() ==> (#[trigger] rs[i]).offset + rs[i].length <= (
        #[trigger] rs[j]).offset
}

proof fn lemma_index_plain_props(s: Seq<u8>, name: Seq<u8>, o: int)
    requires
        0 <= o,
    ensures
        index_plain(s, name, o) matches Ok(rs) ==> record_seq_props(rs, o, s.len() as int, name),
    decreases s.len() - o,
{
    if o < s.len() {
        match scan_record_spec(s, o, empty_record(name)) {
            Err(_) => {},
            Ok(r) => {
                crate::indexer::scan::lemma_scan_ok_fields(s, o, empty_record(name));
                let rlen = r.header_length + r.content_length + 4;
                if o + rlen <= s.len() {
                    let r2 = finish_record(r, o, rlen);
                    lemma_index_plain_props(s, name, o + rlen);
                    match index_plain(s, name, o + rlen) {
                        Err(_) => {},
                        Ok(rest) => {
                            if retained(r2) {
                                let rs = seq![r2] + rest;
                                assert forall|i: int, j: int|
                                    0 <= i && i + 1 == j && j < rs.len() implies (
                                #[trigger] rs[i]).offset + rs[i].length <= (#[trigger] rs[j]).offset by {
                                    assert(rs[j] == rest[j - 1]);
                                    assert(rest[j - 1].offset >= o + rlen);
                                    if i > 0 {
                                        assert(rs[i] == rest[i - 1]);
                                    } else {
                                        assert(rs[0] == r2);
                                    }
                                };
                            }
                        },
                    }
                }
            },
        }
    }
}

proof fn lemma_index_gzip_props(s: Seq<u8>, name: Seq<u8>, o: int)
    requires
        0 <= o,
    ensures
        index_gzip(s, name, o) matches Ok(rs) ==> record_seq_props(rs, o, s.len() as int, name),
    decreases s.len() - o,
{
    if o < s.len() {
        match gunzip_member(s, o) {
            None => {},
            Some(dc) => {
                let decoded = dc.0;
                let consumed = dc.1;
                if 0 < consumed && o + consumed <= s.len() {
                    match scan_record_spec(decoded, 0, empty_record(name)) {
                        Err(_) => {},
                        Ok(r) => {
                            crate::indexer::scan::lemma_scan_ok_fields(
                                decoded,
                                0,
                                empty_record(name),
                            );
                            if decoded.len() == r.header_length + r.content_length + 4 {
                                let r2 = finish_record(r, o, consumed);
                                lemma_index_gzip_props(s, name, o + consumed);
                                match index_gzip(s, name, o + consumed) {
                                    Err(_) => {},
                                    Ok(rest) => {
                                        if retained(r2) {
                                            let rs = seq![r2] + rest;
                                            assert forall|i: int, j: int|
                                                0 <= i && i + 1 == j && j < rs.len() implies (
                                            #[trigger] rs[i]).offset + rs[i].length <= (
                                            #[trigger] rs[j]).offset by {
                                                assert(rs[j] == rest[j - 1]);
                                                assert(rest[j - 1].offset >= o + consumed);
                                                if i > 0 {
                                                    assert(rs[i] == rest[i - 1]);
                                                } else {
                                                    assert(rs[0] == r2);
                                                }
                                            };
                                        }
                                    },
                                }
                            }
                        },
                    }
                }
            },
        }
    }
}

/// An accumulator of already-emitted records in front of the records
/// still to come.
pub open spec fn prepend_records(
    acc: Seq<RecordData>,
    r: Result<Seq<RecordData>, IndexingError>,
) -> Result<Seq<RecordData>, IndexingError> {
    match r {
        Ok(rest) => Ok(acc + rest),
        Err(e) => Err(e),
    }
}

/// The deep view of a record vector.
pub open spec fn records_view(v: Seq<IndexRecord>) -> Seq<RecordData> {
    v.map_values(|x: IndexRecord| x@)
}

#[verifier::loop_isolation(false)]
fn collect_plain(warc: &[u8], file_name: &[u8]) -> (r: Result<Vec<IndexRecord>, IndexingError>)
    requires
        warc@.len() < usize::MAX,
    ensures
        match r {
            Ok(v) => index_plain(warc@, file_name@, 0) == Ok::<Seq<RecordData>, IndexingError>(
                records_view(v@),
            ),
            Err(e) => index_plain(warc@, file_name@, 0) == Err::<Seq<RecordData>, IndexingError>(
                e,
            ),
        },
{
    let mut out: Vec<IndexRecord> = Vec::new();
    let mut o: usize = 0;
    while o < warc.len()
        invariant
            o <= warc@.len(),
            index_plain(warc@, file_name@, 0) == prepend_records(
                records_view(out@),
                index_plain(warc@, file_name@, o as int),
            ),
        decreases warc@.len() - o,
    {
        let ghost acc0 = records_view(out@);
        let mut rec = IndexRecord::new();
        rec.file_name = vstd::slice::slice_to_vec(file_name);
        proof {
            assert(rec@ =~= empty_record(file_name@));
        }
        match scan_record(warc, o, &mut rec) {
            Ok(()) => {},
            Err(e) => {
                return Err(e);
            },
        }
        let ghost r1 = rec@;
        proof {
            crate::indexer::scan::lemma_scan_ok_fields(warc@, o as int, empty_record(file_name@));
        }
        let h = rec.header_length;
        let c = rec.content_length;
        let avail = warc.len() - o;
        let total: u128 = h as u128 + c as u128 + 4;
        if total > avail as u128 {
            return Err(IndexingError::MalformedRecord);
        }
        let rlen: usize = total as usize;
        rec.offset = o;
        rec.length = rlen;
        let page = crate::indexer::record::is_page_mime_type(rec.mime_type.as_slice())
            && rec.http_status_code >= 200 && rec.http_status_code <= 299;
        rec.is_page = page;
        proof {
            assert(rec@ =~= finish_record(r1, o as int, rlen as int));
        }
        let retain = rec.is_retained();
        if retain {
            out.push(rec);
            proof {
                assert(records_view(out@) =~= acc0 + seq![finish_record(r1, o as int, rlen as int)]);
            }
        }
        proof {
            let step = index_plain(warc@, file_name@, o as int);
            let next = index_plain(warc@, file_name@, o + rlen);
            match next {
                Err(_) => {},
                Ok(rest) => {
                    let r2 = finish_record(r1, o as int, rlen as int);
                    if retained(r2) {
                        assert(acc0 + (seq![r2] + rest) =~= (acc0 + seq![r2]) + rest);
                    }
                },
            }
            assert(prepend_records(acc0, step) == prepend_records(records_view(out@), next));
        }
        o = o + rlen;
    }
    proof {
        assert(index_plain(warc@, file_name@, o as int) == Ok::<Seq<RecordData>, IndexingError>(
            Seq::empty(),
        ));
        assert(records_view(out@) + Seq::<RecordData>::empty() =~= records_view(out@));
    }
    Ok(out)
}

#[verifier::loop_isolation(false)]
fn collect_gzip(warc: &[u8], file_name: &[u8]) -> (r: Result<Vec<IndexRecord>, IndexingError>)
    requires
        warc@.len() < usize::MAX,
    ensures
        match r {
            Ok(v) => index_gzip(warc@, file_name@, 0) == Ok::<Seq<RecordData>, IndexingError>(
                records_view(v@),
            ),
            Err(e) => index_gzip(warc@, file_name@, 0) == Err::<Seq<RecordData>, IndexingError>(
                e,
            ),
        },
{
    let mut out: Vec<IndexRecord> = Vec::new();
    let mut o: usize = 0;
    while o < warc.len()
        invariant
            o <= warc@.len(),
            index_gzip(warc@, file_name@, 0) == prepend_records(
                records_view(out@),
                index_gzip(warc@, file_name@, o as int),
            ),
        decreases warc@.len() - o,
    {
        let ghost acc0 = records_view(out@);
        let (decoded, consumed) = match decode_gzip_member(warc, o) {
            Some(dc) => dc,
            None => {
                return Err(IndexingError::FrameDecodeError);
            },
        };
        let mut rec = IndexRecord::new();
        rec.file_name = vstd::slice::slice_to_vec(file_name);
        proof {
            assert(rec@ =~= empty_record(file_name@));
        }
        match scan_record(decoded.as_slice(), 0, &mut rec) {
            Ok(()) => {},
            Err(e) => {
                return Err(e);
            },
        }
        let ghost r1 = rec@;
        proof {
            crate::indexer::scan::lemma_scan_ok_fields(decoded@, 0, empty_record(file_name@));
        }
        let h = rec.header_length;
        let c = rec.content_length;
        let total: u128 = h as u128 + c as u128 + 4;
        if decoded.len() as u128 != total {
            return Err(IndexingError::MalformedRecord);
        }
        rec.offset = o;
        rec.length = consumed;
        let page = crate::indexer::record::is_page_mime_type(rec.mime_type.as_slice())
            && rec.http_status_code >= 200 && rec.http_status_code <= 299;
        rec.is_page = page;
        proof {
            assert(rec@ =~= finish_record(r1, o as int, consumed as int));
        }
        let retain = rec.is_retained();
        if retain {
            out.push(rec);
            proof {
                assert(records_view(out@) =~= acc0 + seq![
                    finish_record(r1, o as int, consumed as int),
                ]);
            }
        }
        proof {
            let step = index_gzip(warc@, file_name@, o as int);
            let next = index_gzip(warc@, file_name@, o + consumed);
            match next {
                Err(_) => {},
                Ok(rest) => {
                    let r2 = finish_record(r1, o as int, consumed as int);
                    if retained(r2) {
                        assert(acc0 + (seq![r2] + rest) =~= (acc0 + seq![r2]) + rest);
                    }
                },
            }
            assert(prepend_records(acc0, step) == prepend_records(records_view(out@), next));
        }
        o = o + consumed;
    }
    proof {
        assert(index_gzip(warc@, file_name@, o as int) == Ok::<Seq<RecordData>, IndexingError>(
            Seq::empty(),
        ));
        assert(records_view(out@) + Seq::<RecordData>::empty() =~= records_view(out@));
    }
    Ok(out)
}

/// Index the WARC file held in `warc`, named `file_name`: walk its
/// records in file order, keep the ones the completeness filter retains,
/// and stamp each with its offset and length in the original file.
///
/// On success, the emitted sequence is exactly [`index_spec`], and it
/// satisfies [`record_seq_props`]: every record is retained, `is_page`
/// holds exactly of the page media types with a success status, and the
/// sequence is ordered by offset with `offset + length` never past the
/// end of the file nor past the next record's offset.
pub fn indexer(warc: &[u8], file_name: &[u8]) -> (r: Result<Vec<IndexRecord>, IndexingError>)
    requires
        warc@.len() < usize::MAX,
    ensures
        match r {
            Ok(v) => index_spec(warc@, file_name@) == Ok::<Seq<RecordData>, IndexingError>(
                records_view(v@),
            ) && record_seq_props(records_view(v@), 0, warc@.len() as int, file_name@),
            Err(e) => index_spec(warc@, file_name@) == Err::<Seq<RecordData>, IndexingError>(e),
        },
{
    proof {
        lemma_index_plain_props(warc@, file_name@, 0);
        lemma_index_gzip_props(warc@, file_name@, 0);
    }
    if has_gz_extension(file_name) {
        collect_gzip(warc, file_name)
    } else {
        collect_plain(warc, file_name)
    }
}

} // verus!
