use sha2::Digest as _;
use wacksy::datapackage::{DataPackage, DataPackageResource, ResourceType};
use wacksy::indexer::{indexer, to_cdxj_string, to_pages_json_string};

fn sha256_hex(data: &[u8]) -> String {
    let digest = sha2::Sha256::digest(data);
    let mut hex = String::new();
    for byte in digest {
        hex.push_str(&format!("{:02x}", byte));
    }
    hex
}

fn example_warc() -> Vec<u8> {
    let payload: &[u8] = b"HTTP/1.1 200 OK\r\nContent-Type: text/html\r\n\r\n<html></html>";
    let header = format!(
        "WARC/1.1\r\nWARC-Type: response\r\nWARC-Target-URI: http://archive.org/goo\r\nWARC-Date: 2025-08-06T14:37:28+01:00\r\nWARC-Payload-Digest: sha1:AAAA\r\nContent-Type: application/http; msgtype=response\r\nContent-Length: {}\r\n\r\n",
        payload.len()
    );
    let mut record = header.into_bytes();
    record.extend_from_slice(payload);
    record.extend_from_slice(b"\r\n\r\n");
    record
}

#[test]
fn resource_carries_path_hash_and_size() {
    let resource =
        DataPackageResource::new(ResourceType::Warc, b"data.warc", b"hello").unwrap();
    assert_eq!(resource.path, b"archive/data.warc".to_vec());
    assert_eq!(resource.bytes, 5);
    assert_eq!(resource.content, b"hello".to_vec());
    let expected_hash = format!("sha256:{}", sha256_hex(b"hello"));
    assert_eq!(resource.hash, expected_hash.into_bytes());
    let expected_json = format!(
        "{{\"name\":\"web_archive_file\",\"path\":\"archive/data.warc\",\"hash\":\"sha256:{}\",\"bytes\":5}}",
        sha256_hex(b"hello")
    );
    assert_eq!(resource.to_json_string(), expected_json.into_bytes());
}

#[test]
fn datapackage_lists_the_three_resources() {
    let warc = example_warc();
    let index = indexer(&warc, b"example.warc").unwrap();
    let package = DataPackage::new(b"example.warc", &warc, &index).unwrap();

    assert_eq!(package.resources.len(), 3);
    assert_eq!(package.resources[0].path, b"archive/example.warc".to_vec());
    assert_eq!(package.resources[1].path, b"indexes/index.cdxj".to_vec());
    assert_eq!(package.resources[2].path, b"pages/pages.jsonl".to_vec());
    assert_eq!(package.resources[0].content, warc);
    assert_eq!(
        package.resources[1].content,
        to_cdxj_string(&index).unwrap()
    );
    assert_eq!(package.resources[2].content, to_pages_json_string(&index));
    assert_eq!(package.wacz_version, b"1.1.1".to_vec());

    let json = package.to_json_string();
    let text = String::from_utf8(json).unwrap();
    assert!(text.starts_with("{\"profile\":\"data-package\",\"wacz_version\":\"1.1.1\",\"created\":\""));
    assert!(text.contains("\"resources\":[{\"name\":\"web_archive_file\",\"path\":\"archive/example.warc\""));
    assert!(text.ends_with("]}"));
}

#[test]
fn digest_hashes_the_manifest_text() {
    let warc = example_warc();
    let index = indexer(&warc, b"example.warc").unwrap();
    let package = DataPackage::new(b"example.warc", &warc, &index).unwrap();
    let digest = package.digest();
    assert_eq!(digest.path, b"datapackage.json".to_vec());
    let expected_hash = format!("sha256:{}", sha256_hex(&package.to_json_string()));
    assert_eq!(digest.hash, expected_hash.clone().into_bytes());
    let expected_json = format!(
        "{{\"path\":\"datapackage.json\",\"hash\":\"{}\"}}",
        expected_hash
    );
    assert_eq!(digest.to_json_string(), expected_json.into_bytes());
}
