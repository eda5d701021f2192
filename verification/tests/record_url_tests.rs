use wacksy::errors::IndexingError;
use wacksy::indexer::record_url::RecordUrl;

#[test]
fn valid_url() {
    let target_url = "https://thehtml.review/04/ascii-bedroom-archive/";
    let parsed_url = RecordUrl::new(target_url.as_bytes()).unwrap().to_lowercase_string();
    assert_eq!(parsed_url, target_url.as_bytes().to_vec());
}

#[test]
fn record_url_valid_surt() {
    let target_url = "https://thehtml.review/04/ascii-bedroom-archive/";
    let surt_parsed_url = RecordUrl::new(target_url.as_bytes())
        .unwrap()
        .as_searchable_string()
        .unwrap();
    assert_eq!(
        surt_parsed_url,
        b"review,thehtml)/04/ascii-bedroom-archive/".to_vec()
    );
}

#[test]
fn unparseable_url_reports_bad_url() {
    let result = RecordUrl::new(b"not a url at all");
    assert_eq!(result.unwrap_err(), IndexingError::BadUrl);
}

#[test]
fn url_without_host_has_no_searchable_string() {
    let parsed = RecordUrl::new(b"urn:pageinfo:archive.org").unwrap();
    assert_eq!(
        parsed.as_searchable_string().unwrap_err(),
        IndexingError::BadUrl
    );
}
