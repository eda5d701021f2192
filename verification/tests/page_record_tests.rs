use wacksy::errors::IndexingError;
use wacksy::indexer::page_record::PageRecord;
use wacksy::indexer::WarcRecordType;

#[test]
fn valid_page_record() {
    let timestamp = "2025-08-06T14:37:28+01:00";
    let target_url = "https://thehtml.review/04/ascii-bedroom-archive/";
    let body = "HTTP/1.1 200\ncontent-type: text/html\n";

    let page = PageRecord::new(
        Some(WarcRecordType::Resource),
        timestamp.as_bytes(),
        target_url.as_bytes(),
        body.as_bytes(),
        1,
    )
    .unwrap();

    assert_eq!(page.id, 1);
    assert_eq!(page.timestamp, b"2025-08-06T13:37:28Z".to_vec());
    let expected = "{\"id\":1,\"ts\":\"2025-08-06T13:37:28Z\",\"url\":\"https://thehtml.review/04/ascii-bedroom-archive/\"}";
    assert_eq!(page.to_json_string(), expected.as_bytes().to_vec());
}

#[test]
fn metadata_record_is_not_a_page() {
    let result = PageRecord::new(
        Some(WarcRecordType::Metadata),
        b"2025-08-06T14:37:28+01:00",
        b"https://thehtml.review/",
        b"HTTP/1.1 200\ncontent-type: text/html\n",
        0,
    );
    assert_eq!(result.unwrap_err(), IndexingError::UnindexableRecordType);
}

#[test]
fn non_page_media_type_is_not_a_page() {
    let result = PageRecord::new(
        Some(WarcRecordType::Response),
        b"2025-08-06T14:37:28+01:00",
        b"https://thehtml.review/",
        b"HTTP/1.1 200\ncontent-type: text/css\n",
        0,
    );
    assert_eq!(result.unwrap_err(), IndexingError::UnindexableRecordType);
}

#[test]
fn bad_date_reports_bad_timestamp() {
    let result = PageRecord::new(
        Some(WarcRecordType::Response),
        b"yesterday",
        b"https://thehtml.review/",
        b"HTTP/1.1 200\ncontent-type: text/html\n",
        0,
    );
    assert_eq!(result.unwrap_err(), IndexingError::BadTimestamp);
}
