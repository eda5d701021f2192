use std::io::Write;

use wacksy::errors::IndexingError;
use wacksy::indexer::{indexer, to_cdxj_string, to_pages_json_string, WarcRecordType};

fn make_record(
    warc_type: &str,
    url: &str,
    date: &str,
    digest: &str,
    content_type: &str,
    payload: &[u8],
) -> Vec<u8> {
    let header = format!(
        "WARC/1.1\r\nWARC-Type: {}\r\nWARC-Target-URI: {}\r\nWARC-Date: {}\r\nWARC-Payload-Digest: {}\r\nContent-Type: {}\r\nContent-Length: {}\r\n\r\n",
        warc_type,
        url,
        date,
        digest,
        content_type,
        payload.len()
    );
    let mut record = header.into_bytes();
    record.extend_from_slice(payload);
    record.extend_from_slice(b"\r\n\r\n");
    record
}

fn html_response_record(url: &str, date: &str, digest: &str) -> Vec<u8> {
    make_record(
        "response",
        url,
        date,
        digest,
        "application/http; msgtype=response",
        b"HTTP/1.1 200 OK\r\nContent-Type: text/html\r\n\r\n<html></html>",
    )
}

fn gzip_bytes(data: &[u8]) -> Vec<u8> {
    let mut encoder =
        flate2::write::GzEncoder::new(Vec::new(), flate2::Compression::default());
    encoder.write_all(data).unwrap();
    encoder.finish().unwrap()
}

#[test]
fn plain_single_record() {
    let file = html_response_record(
        "http://archive.org/goo",
        "2025-08-06T14:37:28+01:00",
        "sha1:AAAA",
    );
    let index = indexer(&file, b"example.warc").unwrap();
    assert_eq!(index.len(), 1);
    let rec = &index[0];
    assert_eq!(rec.offset, 0);
    assert_eq!(rec.length, file.len());
    assert_eq!(rec.record_type, Some(WarcRecordType::Response));
    assert_eq!(rec.url, b"http://archive.org/goo".to_vec());
    assert_eq!(rec.timestamp, b"2025-08-06T14:37:28+01:00".to_vec());
    assert_eq!(rec.digest, b"sha1:AAAA".to_vec());
    assert_eq!(rec.mime_type, b"text/html".to_vec());
    assert_eq!(rec.http_status_code, 200);
    assert!(rec.is_http);
    assert!(rec.is_page);
    assert_eq!(rec.file_name, b"example.warc".to_vec());
}

#[test]
fn plain_single_record_cdxj() {
    let file = html_response_record(
        "http://archive.org/goo",
        "2025-08-06T14:37:28+01:00",
        "sha1:AAAA",
    );
    let index = indexer(&file, b"example.warc").unwrap();
    let cdxj = to_cdxj_string(&index).unwrap();
    let expected = format!(
        "org,archive)/goo 20250806133728 {{\"url\":\"http://archive.org/goo\",\"digest\":\"sha1:AAAA\",\"mime\":\"text/html\",\"offset\":0,\"length\":{},\"status\":200,\"filename\":\"example.warc\"}}",
        file.len()
    );
    assert_eq!(cdxj, expected.into_bytes());
}

#[test]
fn plain_single_record_pages() {
    let file = html_response_record(
        "http://archive.org/goo",
        "2025-08-06T14:37:28+01:00",
        "sha1:AAAA",
    );
    let index = indexer(&file, b"example.warc").unwrap();
    let pages = to_pages_json_string(&index);
    let expected = "{\"format\":\"json-pages-1.0\",\"id\":\"pages\",\"title\":\"All Pages\"}\n{\"id\":\"0\",\"url\":\"http://archive.org/goo\",\"ts\":\"2025-08-06T14:37:28+01:00\"}";
    assert_eq!(pages, expected.as_bytes().to_vec());
}

#[test]
fn plain_records_keep_file_order_and_offsets() {
    let first = html_response_record(
        "http://archive.org/one",
        "2025-08-06T14:37:28+01:00",
        "sha1:AAAA",
    );
    // A metadata record without an HTTP payload: parsed, then dropped by
    // the completeness filter, while later offsets stay correct.
    let skipped = make_record(
        "metadata",
        "urn:pageinfo:archive.org",
        "2025-08-06T14:37:28+01:00",
        "sha1:BBBB",
        "application/warc-fields",
        b"fetch: ok",
    );
    let second = make_record(
        "response",
        "http://archive.org/two",
        "2025-08-06T15:00:00Z",
        "sha1:CCCC",
        "application/http; msgtype=response",
        b"HTTP/1.1 404 Not Found\r\nContent-Type: text/css\r\n\r\nbody{}",
    );
    let mut file = first.clone();
    file.extend_from_slice(&skipped);
    file.extend_from_slice(&second);

    let index = indexer(&file, b"example.warc").unwrap();
    assert_eq!(index.len(), 2);
    // ordered by offset, extents do not overlap, nothing runs past the end
    assert_eq!(index[0].offset, 0);
    assert_eq!(index[0].length, first.len());
    assert_eq!(index[1].offset, first.len() + skipped.len());
    assert_eq!(index[1].length, second.len());
    assert!(index[1].offset >= index[0].offset + index[0].length);
    assert!(index[1].offset + index[1].length <= file.len());
    // every retained record passes the completeness filter
    for rec in &index {
        assert!(rec.record_type.is_some());
        assert!(!rec.mime_type.is_empty());
        assert_ne!(rec.http_status_code, 0);
    }
    // is_page follows the media type and the status range
    assert!(index[0].is_page);
    assert!(!index[1].is_page);
}

#[test]
fn pages_count_one_more_than_pages() {
    let first = html_response_record(
        "http://archive.org/one",
        "2025-08-06T14:37:28+01:00",
        "sha1:AAAA",
    );
    let second = make_record(
        "response",
        "http://archive.org/two",
        "2025-08-06T15:00:00Z",
        "sha1:CCCC",
        "application/http; msgtype=response",
        b"HTTP/1.1 404 Not Found\r\nContent-Type: text/css\r\n\r\nbody{}",
    );
    let mut file = first;
    file.extend_from_slice(&second);
    let index = indexer(&file, b"example.warc").unwrap();
    assert_eq!(index.len(), 2);
    let pages = to_pages_json_string(&index);
    let lines: Vec<&[u8]> = pages.split(|b| *b == b'\n').collect();
    let page_records = index.iter().filter(|r| r.is_page).count();
    assert_eq!(lines.len(), 1 + page_records);
}

#[test]
fn cdxj_counts_one_line_per_record() {
    let first = html_response_record(
        "http://archive.org/one",
        "2025-08-06T14:37:28+01:00",
        "sha1:AAAA",
    );
    let second = make_record(
        "response",
        "http://archive.org/two",
        "2025-08-06T15:00:00Z",
        "sha1:CCCC",
        "application/http; msgtype=response",
        b"HTTP/1.1 404 Not Found\r\nContent-Type: text/css\r\n\r\nbody{}",
    );
    let mut file = first;
    file.extend_from_slice(&second);
    let index = indexer(&file, b"example.warc").unwrap();
    let cdxj = to_cdxj_string(&index).unwrap();
    let lines: Vec<&[u8]> = cdxj.split(|b| *b == b'\n').collect();
    assert_eq!(lines.len(), index.len());
}

#[test]
fn gzip_members_give_offsets_in_the_compressed_file() {
    let first = html_response_record(
        "http://archive.org/one",
        "2025-08-06T14:37:28+01:00",
        "sha1:AAAA",
    );
    let second = html_response_record(
        "http://archive.org/two",
        "2025-08-06T15:00:00Z",
        "sha1:CCCC",
    );
    let member1 = gzip_bytes(&first);
    let member2 = gzip_bytes(&second);
    let mut file = member1.clone();
    file.extend_from_slice(&member2);

    let index = indexer(&file, b"example.warc.gz").unwrap();
    assert_eq!(index.len(), 2);
    assert_eq!(index[0].offset, 0);
    assert_eq!(index[0].length, member1.len());
    assert_eq!(index[1].offset, member1.len());
    assert_eq!(index[1].length, member2.len());
    assert_eq!(index[0].url, b"http://archive.org/one".to_vec());
    assert_eq!(index[1].url, b"http://archive.org/two".to_vec());
    assert_eq!(index[0].content_length, first.len() - index[0].header_length - 4);
}

#[test]
fn not_gzip_reports_frame_decode_error() {
    let file = html_response_record(
        "http://archive.org/goo",
        "2025-08-06T14:37:28+01:00",
        "sha1:AAAA",
    );
    // same bytes, but the name claims a gzip file
    let result = indexer(&file, b"example.warc.gz");
    assert_eq!(result.unwrap_err(), IndexingError::FrameDecodeError);
}

#[test]
fn missing_magic_reports_malformed_record() {
    let result = indexer(b"HELLO/1.1\r\nContent-Length: 0\r\n\r\n\r\n\r\n", b"x.warc");
    assert_eq!(result.unwrap_err(), IndexingError::MalformedRecord);
}

#[test]
fn truncated_header_reports_malformed_record() {
    let result = indexer(b"WARC/1.1\r\nWARC-Type: response", b"x.warc");
    assert_eq!(result.unwrap_err(), IndexingError::MalformedRecord);
}

#[test]
fn record_past_end_of_file_reports_malformed_record() {
    // Content-Length promises more payload than the file holds.
    let result = indexer(
        b"WARC/1.1\r\nContent-Length: 9999\r\n\r\n\r\n\r\n",
        b"x.warc",
    );
    assert_eq!(result.unwrap_err(), IndexingError::MalformedRecord);
}

#[test]
fn header_line_without_colon_reports_malformed_header_line() {
    let result = indexer(b"WARC/1.1\r\nbroken header line\r\n\r\n\r\n\r\n", b"x.warc");
    assert_eq!(result.unwrap_err(), IndexingError::MalformedHeaderLine);
}

#[test]
fn non_integer_content_length_reports_malformed_header_line() {
    let result = indexer(b"WARC/1.1\r\nContent-Length: ten\r\n\r\n\r\n\r\n", b"x.warc");
    assert_eq!(result.unwrap_err(), IndexingError::MalformedHeaderLine);
}

#[test]
fn status_out_of_range_reports_bad_status_line() {
    let file = make_record(
        "response",
        "http://archive.org/goo",
        "2025-08-06T14:37:28+01:00",
        "sha1:AAAA",
        "application/http; msgtype=response",
        b"HTTP/1.1 999 Nope\r\nContent-Type: text/html\r\n\r\nx",
    );
    let result = indexer(&file, b"x.warc");
    assert_eq!(result.unwrap_err(), IndexingError::BadStatusLine);
}

#[test]
fn bad_timestamp_stops_the_cdxj_projection() {
    let file = make_record(
        "response",
        "http://archive.org/goo",
        "not-a-date",
        "sha1:AAAA",
        "application/http; msgtype=response",
        b"HTTP/1.1 200 OK\r\nContent-Type: text/html\r\n\r\nx",
    );
    let index = indexer(&file, b"x.warc").unwrap();
    assert_eq!(index.len(), 1);
    let result = to_cdxj_string(&index);
    assert_eq!(result.unwrap_err(), IndexingError::BadTimestamp);
}

#[test]
fn urn_records_are_dropped_from_cdxj() {
    let file = make_record(
        "response",
        "urn:uuid:0011",
        "2025-08-06T14:37:28+01:00",
        "sha1:AAAA",
        "application/http; msgtype=response",
        b"HTTP/1.1 200 OK\r\nContent-Type: text/html\r\n\r\nx",
    );
    let index = indexer(&file, b"x.warc").unwrap();
    assert_eq!(index.len(), 1);
    let cdxj = to_cdxj_string(&index).unwrap();
    assert!(cdxj.is_empty());
}
