use wacksy::indexer::{has_gz_extension, to_cdxj_string, IndexRecord};

#[test]
fn new_record_is_empty() {
    let rec = IndexRecord::new();
    assert_eq!(rec.offset, 0);
    assert_eq!(rec.length, 0);
    assert_eq!(rec.content_length, 0);
    assert_eq!(rec.header_length, 0);
    assert!(rec.digest.is_empty());
    assert!(rec.timestamp.is_empty());
    assert!(rec.record_type.is_none());
    assert!(rec.url.is_empty());
    assert!(!rec.is_page);
    assert!(!rec.is_http);
    assert_eq!(rec.http_status_code, 0);
    assert!(rec.mime_type.is_empty());
    assert!(rec.file_name.is_empty());
}

#[test]
fn gz_extension_is_case_sensitive() {
    assert!(has_gz_extension(b"example.warc.gz"));
    assert!(!has_gz_extension(b"example.warc.GZ"));
    assert!(!has_gz_extension(b"example.warc"));
    assert!(!has_gz_extension(b".gz"));
}

#[test]
fn cdxj_escapes_json_string_fields() {
    let mut rec = IndexRecord::new();
    rec.record_type = Some(wacksy::indexer::WarcRecordType::Response);
    rec.url = b"http://a.b/q\"z".to_vec();
    rec.timestamp = b"2025-08-06T12:00:00Z".to_vec();
    rec.digest = b"sha1:AAAA".to_vec();
    rec.mime_type = b"text/html".to_vec();
    rec.http_status_code = 200;
    rec.length = 10;
    rec.file_name = b"x.warc".to_vec();

    let cdxj = to_cdxj_string(std::slice::from_ref(&rec)).unwrap();
    let expected = "b,a)/q\"z 20250806120000 {\"url\":\"http://a.b/q\\\"z\",\"digest\":\"sha1:AAAA\",\"mime\":\"text/html\",\"offset\":0,\"length\":10,\"status\":200,\"filename\":\"x.warc\"}";
    assert_eq!(cdxj, expected.as_bytes().to_vec());
}

#[test]
fn empty_file_indexes_to_nothing() {
    let index = wacksy::indexer::indexer(b"", b"empty.warc").unwrap();
    assert!(index.is_empty());
    let cdxj = to_cdxj_string(&index).unwrap();
    assert!(cdxj.is_empty());
    let pages = wacksy::indexer::to_pages_json_string(&index);
    assert_eq!(
        pages,
        b"{\"format\":\"json-pages-1.0\",\"id\":\"pages\",\"title\":\"All Pages\"}".to_vec()
    );
}
