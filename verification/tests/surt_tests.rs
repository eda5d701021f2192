use wacksy::indexer::surt::create_surt;

#[test]
fn surt_valid_surt() {
    let test_cases = [
        ("http://www.archive.org/", "org,archive,www)/"),
        (
            "https://thehtml.review/04/ascii-bedroom-archive/",
            "review,thehtml)/04/ascii-bedroom-archive/",
        ),
        ("http://archive.org/", "org,archive)/"),
        ("http://archive.org/goo/", "org,archive)/goo/"),
        ("http://archive.org/goo/?", "org,archive)/goo/?"),
        ("http://archive.org/goo", "org,archive)/goo"),
    ];

    for test_case in test_cases {
        let surt_parsed_url = create_surt(test_case.0.as_bytes()).unwrap();
        assert_eq!(surt_parsed_url, test_case.1.as_bytes().to_vec());
    }

    let invalid_test_cases = ["www.archive.org", "archive.org", "urn:pageinfo:archive.org"];
    for test_case in invalid_test_cases {
        let surt_parsed_url = create_surt(test_case.as_bytes());
        assert_eq!(surt_parsed_url, None);
    }
}

#[test]
fn surt_is_lowercased() {
    let surt = create_surt("http://WWW.Archive.ORG/Goo".as_bytes()).unwrap();
    assert_eq!(surt, "org,archive,www)/goo".as_bytes().to_vec());
}

#[test]
fn surt_without_path_has_empty_rest() {
    let surt = create_surt("http://archive.org".as_bytes()).unwrap();
    assert_eq!(surt, "org,archive)/".as_bytes().to_vec());
    let surt = create_surt("https://www.archive.org".as_bytes()).unwrap();
    assert_eq!(surt, "org,archive,www)/".as_bytes().to_vec());
}

#[test]
fn surt_needs_the_full_scheme_prefix() {
    assert_eq!(create_surt("httpfoo.bar/x".as_bytes()), None);
    assert_eq!(create_surt("httpsfoo.bar/x".as_bytes()), None);
    assert_eq!(create_surt("http:/archive.org/x".as_bytes()), None);
}
